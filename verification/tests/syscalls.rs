use oscore::config::{
    MAX_SYSCALL_NUM, PAGE_SIZE, PERM_R, PERM_W, PERM_X, SYSCALL_YIELD, USER_STACK_SIZE,
};
use oscore::kernel::Kernel;
use oscore::mem::{FrameAllocator, MemorySet};
use oscore::syscall::{
    sys_exit, sys_get_time, sys_mmap, sys_munmap, sys_set_priority, sys_task_info, sys_yield,
};
use oscore::task::{status_code, ProgramImage, Segment, TaskControlBlock, TaskStatus};

fn sample_image() -> ProgramImage {
    ProgramImage {
        segments: vec![Segment { start_vpn: 1, end_vpn: 2, perm: PERM_R | PERM_X }],
        entry_point: 0x1000,
    }
}

/// A machine with one spawned, scheduled process and `free` grantable frames
/// left over. The sample image consumes 5 frames and its kernel stack 2.
fn boot(free: usize) -> Kernel {
    let mut k = Kernel::new(free + 7, 0x8000);
    let image = sample_image();
    let id = k.spawn(&image);
    assert_eq!(id, 0);
    k.schedule(0);
    k
}

/// A writable user address: just below the initial user stack pointer.
fn stack_ptr(k: &Kernel) -> usize {
    k.tasks[k.current].base_size - 64
}

#[test]
fn mmap_misaligned_start_fails() {
    let mut k = boot(10);
    let areas_before = k.tasks[0].memory_set.areas.len();
    assert_eq!(sys_mmap(&mut k, 0x10001, 0x1000, 0x3), -1);
    assert_eq!(sys_mmap(&mut k, PAGE_SIZE + 1, PAGE_SIZE, 0x7), -1);
    assert_eq!(k.tasks[0].memory_set.areas.len(), areas_before);
}

#[test]
fn mmap_bad_port_fails() {
    let mut k = boot(10);
    let areas_before = k.tasks[0].memory_set.areas.len();
    assert_eq!(sys_mmap(&mut k, 0x10000, 0x1000, 0x0), -1);
    assert_eq!(sys_mmap(&mut k, 0x10000, 0x1000, 0x8), -1);
    assert_eq!(sys_mmap(&mut k, 0x10000, 0x1000, 0x10), -1);
    assert_eq!(sys_mmap(&mut k, 0x10000, 0x1000, 0xff), -1);
    assert_eq!(k.tasks[0].memory_set.areas.len(), areas_before);
}

#[test]
fn mmap_overlap_fails_and_keeps_mapping() {
    let mut k = boot(10);
    assert_eq!(sys_mmap(&mut k, 0x10000, 0x1000, 0x3), 0);
    let area = {
        let a = k.tasks[0].memory_set.areas.last().unwrap();
        (a.start_vpn, a.end_vpn, a.perm, a.start_ppn)
    };
    let areas_before = k.tasks[0].memory_set.areas.len();
    // same range, a range inside it, and a range straddling its start
    assert_eq!(sys_mmap(&mut k, 0x10000, 0x1000, 0x1), -1);
    assert_eq!(sys_mmap(&mut k, 0x10000, 0x1, 0x3), -1);
    assert_eq!(sys_mmap(&mut k, 0xF000, 0x2000, 0x3), -1);
    assert_eq!(k.tasks[0].memory_set.areas.len(), areas_before);
    let a = k.tasks[0].memory_set.areas.last().unwrap();
    assert_eq!((a.start_vpn, a.end_vpn, a.perm, a.start_ppn), area);
}

#[test]
fn mmap_out_of_frames_fails_and_consumes_nothing() {
    let mut k = boot(1);
    assert_eq!(k.alloc.free_frame_count(), 1);
    assert_eq!(sys_mmap(&mut k, 0x10000, 0x2000, 0x3), -1);
    assert_eq!(k.alloc.free_frame_count(), 1);
    // one page still fits
    assert_eq!(sys_mmap(&mut k, 0x10000, 0x1000, 0x3), 0);
    assert_eq!(k.alloc.free_frame_count(), 0);
}

#[test]
fn mmap_grants_exactly_requested_access() {
    let mut k = boot(10);
    assert_eq!(sys_mmap(&mut k, 0x10000, 0x1000, 0x3), 0);
    let ms = &k.tasks[0].memory_set;
    assert!(ms.accessible(0x10000, PERM_R));
    assert!(ms.accessible(0x10000, PERM_W));
    assert!(!ms.accessible(0x10000, PERM_X));
    assert!(ms.accessible(0x10FFF, PERM_R | PERM_W));
    assert!(!ms.accessible(0x11000, PERM_R));
    assert!(!ms.accessible(0xFFFF, PERM_R));
}

#[test]
fn munmap_exact_range_revokes_access() {
    let mut k = boot(10);
    assert_eq!(sys_mmap(&mut k, 0x10000, 0x2000, 0x3), 0);
    assert!(k.tasks[0].memory_set.accessible(0x10000, PERM_W));
    assert_eq!(sys_munmap(&mut k, 0x10000, 0x2000), 0);
    let ms = &k.tasks[0].memory_set;
    assert!(!ms.accessible(0x10000, PERM_R));
    assert!(!ms.accessible(0x11FFF, PERM_R));
}

#[test]
fn munmap_partial_or_unmapped_range_fails() {
    let mut k = boot(10);
    assert_eq!(sys_munmap(&mut k, 0x10000, 0x1000), -1);
    assert_eq!(sys_mmap(&mut k, 0x10000, 0x2000, 0x3), 0);
    let areas_before = k.tasks[0].memory_set.areas.len();
    assert_eq!(sys_munmap(&mut k, 0x10000, 0x1000), -1);
    assert_eq!(sys_munmap(&mut k, 0x11000, 0x1000), -1);
    assert_eq!(sys_munmap(&mut k, 0x10000, 0x3000), -1);
    assert_eq!(k.tasks[0].memory_set.areas.len(), areas_before);
    assert!(k.tasks[0].memory_set.accessible(0x10000, PERM_W));
}

#[test]
fn get_time_splits_the_counter() {
    let mut k = boot(10);
    k.advance_clock(1_500_000);
    let ts = stack_ptr(&k);
    let t = sys_get_time(&k, ts, 0).unwrap();
    assert_eq!(t.sec, 1);
    assert_eq!(t.usec, 500_000);
}

#[test]
fn get_time_is_monotonic() {
    let mut k = boot(10);
    let ts = stack_ptr(&k);
    let mut prev = sys_get_time(&k, ts, 0).unwrap();
    for delta in [0usize, 1, 999_999, 1, 1_000_000, 123_456] {
        k.advance_clock(delta);
        let next = sys_get_time(&k, ts, 0).unwrap();
        assert!((next.sec, next.usec) >= (prev.sec, prev.usec));
        prev = next;
    }
}

#[test]
fn get_time_bad_pointer_faults() {
    let k = boot(10);
    // never mapped
    assert!(sys_get_time(&k, 0x10000, 0).is_err());
    // mapped, but not writable: the program segment is read-execute
    assert!(sys_get_time(&k, PAGE_SIZE, 0).is_err());
}

#[test]
fn task_info_reports_status_counters_and_time() {
    let mut k = boot(10);
    k.advance_clock(250);
    k.record_syscall(SYSCALL_YIELD);
    let ti = stack_ptr(&k);
    let info = sys_task_info(&k, ti).unwrap();
    assert_eq!(info.status, TaskStatus::Running);
    assert_eq!(info.time, 250);
    assert_eq!(info.syscall_times.len(), MAX_SYSCALL_NUM);
    for (num, count) in info.syscall_times.iter().enumerate() {
        if num == SYSCALL_YIELD {
            assert_eq!(*count, 1);
        } else {
            assert_eq!(*count, 0);
        }
    }
}

#[test]
fn task_info_bad_pointer_faults() {
    let k = boot(10);
    assert!(sys_task_info(&k, 0x2000_0000).is_err());
}

#[test]
fn set_priority_always_fails() {
    assert_eq!(sys_set_priority(0), -1);
    assert_eq!(sys_set_priority(-1), -1);
    assert_eq!(sys_set_priority(-100), -1);
    assert_eq!(sys_set_priority(2), -1);
    assert_eq!(sys_set_priority(isize::MAX), -1);
}

#[test]
fn end_to_end_mmap_scenario() {
    let mut k = boot(10);
    assert_eq!(k.alloc.free_frame_count(), 10);
    assert_eq!(sys_mmap(&mut k, 0x10000, 0x1000, 0x3), 0);
    assert_eq!(sys_mmap(&mut k, 0x10000, 0x1000, 0x3), -1);
    assert_eq!(sys_mmap(&mut k, 0x10001, 0x1000, 0x3), -1);
}

#[test]
fn yield_suspends_and_exit_retires() {
    let mut k = boot(10);
    assert_eq!(sys_yield(&mut k), 0);
    assert_eq!(k.tasks[0].task_status, TaskStatus::Ready);
    k.schedule(0);
    assert_eq!(k.tasks[0].task_status, TaskStatus::Running);
    sys_exit(&mut k, 42);
    assert_eq!(k.tasks[0].task_status, TaskStatus::Exited);
    assert_eq!(k.last_exit_code, Some(42));
}

#[test]
fn first_scheduling_stamps_start_time_once() {
    let mut k = Kernel::new(32, 0x8000);
    let image = sample_image();
    k.spawn(&image);
    assert!(k.tasks[0].first_scheduled);
    assert_eq!(k.tasks[0].start_time, usize::MAX);
    k.advance_clock(100);
    k.schedule(0);
    assert_eq!(k.tasks[0].start_time, 100);
    assert_eq!(sys_yield(&mut k), 0);
    k.advance_clock(50);
    k.schedule(0);
    assert_eq!(k.tasks[0].start_time, 100);
}

#[test]
fn new_record_layout_and_contexts() {
    let mut kernel_space = MemorySet::new_bare(0x8000);
    let mut alloc = FrameAllocator::new(32);
    let image = sample_image();
    let tcb = TaskControlBlock::new(&image, 0, &mut kernel_space, &mut alloc);
    assert_eq!(tcb.task_status, TaskStatus::Ready);
    assert!(tcb.first_scheduled);
    assert_eq!(tcb.start_time, usize::MAX);
    assert_eq!(tcb.syscall_times.len(), MAX_SYSCALL_NUM);
    assert!(tcb.syscall_times.iter().all(|c| *c == 0));
    // segment ends at page 2, guard page 2, stack pages [3, 5): sp = 5 * 4096
    assert_eq!(tcb.base_size, 5 * PAGE_SIZE);
    assert_eq!(tcb.get_user_token(), 0);
    assert_eq!(tcb.trap_cx.entry_pc, 0x1000);
    assert_eq!(tcb.trap_cx.user_sp, 5 * PAGE_SIZE);
    assert_eq!(tcb.trap_cx.kernel_satp, 0x8000);
    assert_eq!(tcb.trap_cx.kernel_sp, tcb.task_cx.kernel_sp);
    // the trap frame page is mapped and the record holds its frame
    let trap_vpn = usize::MAX / PAGE_SIZE - 1;
    assert_eq!(tcb.memory_set.translate(trap_vpn), Some(tcb.trap_cx_ppn));
    // the stack region is writable user memory, the segment is not writable
    assert!(tcb.memory_set.accessible(4 * PAGE_SIZE, PERM_R | PERM_W));
    assert!(!tcb.memory_set.accessible(PAGE_SIZE, PERM_W));
    assert!(tcb.memory_set.accessible(PAGE_SIZE, PERM_R | PERM_X));
    // the trap-frame page belongs to the kernel, not to user mode
    assert!(!tcb.memory_set.accessible(trap_vpn * PAGE_SIZE, PERM_R));
    // the kernel stack got mapped into the kernel's space
    assert!(!kernel_space.areas.is_empty());
}

#[test]
fn trap_frame_is_writable_through_the_record() {
    let mut kernel_space = MemorySet::new_bare(0);
    let mut alloc = FrameAllocator::new(32);
    let image = sample_image();
    let mut tcb = TaskControlBlock::new(&image, 0, &mut kernel_space, &mut alloc);
    let cx = tcb.get_trap_cx();
    cx.user_sp = 0xdead;
    assert_eq!(tcb.trap_cx.user_sp, 0xdead);
}

#[test]
fn running_time_measures_from_first_scheduling() {
    let mut k = boot(10);
    k.advance_clock(777);
    assert_eq!(k.tasks[0].running_time(k.clock_us), 777);
}

#[test]
fn update_when_scheduled_is_idempotent() {
    let mut kernel_space = MemorySet::new_bare(0);
    let mut alloc = FrameAllocator::new(32);
    let image = sample_image();
    let mut tcb = TaskControlBlock::new(&image, 0, &mut kernel_space, &mut alloc);
    tcb.update_when_scheduled(5);
    assert!(!tcb.first_scheduled);
    assert_eq!(tcb.start_time, 5);
    tcb.update_when_scheduled(99);
    assert_eq!(tcb.start_time, 5);
}

#[test]
fn record_mmap_and_munmap_directly() {
    let mut kernel_space = MemorySet::new_bare(0);
    let mut alloc = FrameAllocator::new(32);
    let image = sample_image();
    let mut tcb = TaskControlBlock::new(&image, 0, &mut kernel_space, &mut alloc);
    // overlapping the user stack fails; USER_STACK_SIZE above it succeeds
    let sp = tcb.base_size;
    assert_eq!(tcb.mmap(sp - USER_STACK_SIZE, 0x1000, 0x3, &mut alloc), -1);
    assert_eq!(tcb.mmap(sp, 0x1000, 0x3, &mut alloc), 0);
    assert_eq!(tcb.munmap(sp, 0x1000), 0);
    assert_eq!(tcb.munmap(sp, 0x1000), -1);
}

#[test]
fn status_codes_follow_the_wire_order() {
    assert_eq!(status_code(TaskStatus::UnInit), 0);
    assert_eq!(status_code(TaskStatus::Ready), 1);
    assert_eq!(status_code(TaskStatus::Running), 2);
    assert_eq!(status_code(TaskStatus::Exited), 3);
}

#[test]
fn memory_set_overlap_and_translate() {
    let mut ms = MemorySet::new_bare(7);
    let mut alloc = FrameAllocator::new(8);
    assert_eq!(ms.token(), 7);
    assert!(!ms.is_overlapped(0, 0x4000));
    ms.insert_framed_area(0x1000, 0x3000, PERM_R | PERM_W, &mut alloc);
    assert!(ms.is_overlapped(0x2000, 0x4000));
    assert!(!ms.is_overlapped(0x3000, 0x4000));
    assert_eq!(ms.translate(1), Some(0));
    assert_eq!(ms.translate(2), Some(1));
    assert_eq!(ms.translate(3), None);
    assert!(!ms.remove_framed_area(0x1000, 0x2000));
    assert!(ms.remove_framed_area(0x1000, 0x3000));
    assert_eq!(ms.translate(1), None);
}

#[test]
fn mmap_zero_length_maps_nothing() {
    let mut k = boot(10);
    let areas_before = k.tasks[0].memory_set.areas.len();
    assert_eq!(sys_mmap(&mut k, 0x10000, 0, 0x3), 0);
    assert_eq!(k.tasks[0].memory_set.areas.len(), areas_before);
    assert_eq!(k.alloc.free_frame_count(), 10);
    assert!(!k.tasks[0].memory_set.accessible(0x10000, PERM_R));
}

#[test]
fn munmap_zero_length_fails() {
    let mut k = boot(10);
    assert_eq!(sys_munmap(&mut k, 0x10000, 0), -1);
}

#[test]
fn two_processes_get_disjoint_kernel_stacks_and_switch() {
    let mut k = Kernel::new(64, 0x8000);
    let image = sample_image();
    assert_eq!(k.spawn(&image), 0);
    let second = ProgramImage {
        segments: vec![Segment { start_vpn: 4, end_vpn: 6, perm: PERM_R | PERM_W }],
        entry_point: 0x4000,
    };
    assert_eq!(k.spawn(&second), 1);
    let stack0 = {
        let a = k.kernel_space.areas.first().unwrap();
        (a.start_vpn, a.end_vpn)
    };
    let stack1 = {
        let a = k.kernel_space.areas.last().unwrap();
        (a.start_vpn, a.end_vpn)
    };
    assert!(stack1.1 <= stack0.0 || stack0.1 <= stack1.0);
    k.schedule(1);
    assert_eq!(k.current, 1);
    assert_eq!(k.tasks[1].task_status, TaskStatus::Running);
    assert_eq!(k.tasks[0].task_status, TaskStatus::Ready);
    // each process maps its own pages without disturbing the other
    assert_eq!(sys_mmap(&mut k, 0x10000, 0x1000, 0x3), 0);
    assert_eq!(sys_yield(&mut k), 0);
    k.schedule(0);
    assert_eq!(sys_mmap(&mut k, 0x10000, 0x1000, 0x3), 0);
    assert!(k.tasks[0].memory_set.accessible(0x10000, PERM_W));
    assert!(k.tasks[1].memory_set.accessible(0x10000, PERM_W));
}
