//! Process control records: lifecycle status, scheduling bookkeeping, usage
//! counters, and the per-process side of the mapping syscalls.

use vstd::arithmetic::div_mod::lemma_fundamental_div_mod;
use vstd::arithmetic::mul::lemma_mul_inequality;
use vstd::prelude::*;

use crate::config::{
    KERNEL_STACK_PAGES, MAX_SYSCALL_NUM, MAX_TASKS, PAGE_SIZE, PERM_R, PERM_U, PERM_W,
    TRAMPOLINE_VPN, TRAP_CONTEXT_VPN, USER_STACK_PAGES, USER_VPN_LIMIT,
};
use crate::mem::{
    area_contains, find_area, FrameAllocator, MemorySet,
};

verus! {

/// Lifecycle of a process. At most one record is `Running` at a time on the
/// single core.
#[derive(Debug, Clone, Copy, PartialEq, Eq, Structural)]
pub enum TaskStatus {
    UnInit,
    Ready,
    Running,
    Exited,
}

/// Wire code of a status, as diagnostic records lay it out.
pub open spec fn spec_status_code(s: TaskStatus) -> usize {
    match s {
        TaskStatus::UnInit => 0,
        TaskStatus::Ready => 1,
        TaskStatus::Running => 2,
        TaskStatus::Exited => 3,
    }
}

/// Wire code of a status, as diagnostic records lay it out.
#[verifier::when_used_as_spec(spec_status_code)]
pub fn status_code(s: TaskStatus) -> (r: usize)
    ensures
        r == spec_status_code(s),
{
    match s {
        TaskStatus::UnInit => 0,
        TaskStatus::Ready => 1,
        TaskStatus::Running => 2,
        TaskStatus::Exited => 3,
    }
}

/// Saved callee context used to resume a suspended process; opaque to
/// everything but the context-switch mechanism, which needs the kernel stack
/// it lives on.
pub struct TaskContext {
    pub kernel_sp: usize,
}

impl TaskContext {
    /// The context a fresh process starts from: its first resume returns into
    /// the trap-exit path on its own kernel stack.
    pub fn goto_trap_return(kernel_stack_top: usize) -> (r: TaskContext)
        ensures
            r.kernel_sp == kernel_stack_top,
    {
        TaskContext { kernel_sp: kernel_stack_top }
    }
}

/// The user register file saved at the moment of a trap. It lives in the
/// dedicated trap-frame page of the owning address space; the record keeps
/// the contents, since the bytes themselves belong to the translation
/// hardware.
pub struct TrapContext {
    pub entry_pc: usize,
    pub user_sp: usize,
    pub kernel_satp: usize,
    pub kernel_sp: usize,
}

impl TrapContext {
    /// The trap frame a fresh process resumes from: user execution starts at
    /// `entry` on stack `sp`, and the next trap lands on the process's kernel
    /// stack.
    pub fn app_init_context(entry: usize, sp: usize, kernel_satp: usize, kernel_sp: usize) -> (r:
        TrapContext)
        ensures
            r.entry_pc == entry,
            r.user_sp == sp,
            r.kernel_satp == kernel_satp,
            r.kernel_sp == kernel_sp,
    {
        TrapContext { entry_pc: entry, user_sp: sp, kernel_satp, kernel_sp }
    }
}

/// One loadable range of a program image, in pages, with its permission bits
/// (user accessibility is added when the range is mapped).
pub struct Segment {
    pub start_vpn: usize,
    pub end_vpn: usize,
    pub perm: u8,
}

/// A segment is non-empty and ends below the user limit.
pub open spec fn segment_wf(s: Segment) -> bool {
    s.start_vpn < s.end_vpn && s.end_vpn <= USER_VPN_LIMIT
}

/// Two segments share no page.
pub open spec fn segments_disjoint(a: Segment, b: Segment) -> bool {
    a.end_vpn <= b.start_vpn || b.end_vpn <= a.start_vpn
}

/// What the loader reads out of a program image: the loadable segments and
/// the entry point. Parsing the on-disk format is the loader's business; a
/// malformed image fails kernel initialization and never reaches this core.
pub struct ProgramImage {
    pub segments: Vec<Segment>,
    pub entry_point: usize,
}

/// Sum of the page counts of the segments.
pub open spec fn seg_pages_sum(s: Seq<Segment>) -> int
    decreases s.len(),
{
    if s.len() == 0 {
        0
    } else {
        seg_pages_sum(s.drop_last()) + (s.last().end_vpn - s.last().start_vpn)
    }
}

/// Highest page any segment reaches; zero for an empty image.
pub open spec fn seg_max_end(s: Seq<Segment>) -> int
    decreases s.len(),
{
    if s.len() == 0 {
        0
    } else if s.last().end_vpn >= seg_max_end(s.drop_last()) {
        s.last().end_vpn as int
    } else {
        seg_max_end(s.drop_last())
    }
}

impl ProgramImage {
    /// Segments are well formed and pairwise disjoint.
    pub open spec fn wf(self) -> bool {
        &&& forall|i: int| 0 <= i < self.segments@.len() ==> segment_wf(#[trigger] self.segments@[i])
        &&& forall|i: int, j: int|
            0 <= i < j < self.segments@.len() ==> segments_disjoint(
                #[trigger] self.segments@[i],
                #[trigger] self.segments@[j],
            )
    }

    /// Frames a fresh address space for this image consumes: the page-table
    /// root, the segments, the user stack and the trap-frame page.
    pub open spec fn frames_needed(self) -> int {
        1 + seg_pages_sum(self.segments@) + USER_STACK_PAGES + 1
    }
}

proof fn lemma_seg_sum_take_le(s: Seq<Segment>, j: int)
    requires
        0 <= j <= s.len(),
        forall|i: int| 0 <= i < s.len() ==> segment_wf(#[trigger] s[i]),
    ensures
        seg_pages_sum(s.take(j)) <= seg_pages_sum(s),
    decreases s.len() - j,
{
    if j == s.len() {
        assert(s.take(j) =~= s);
    } else {
        lemma_seg_sum_take_le(s, j + 1);
        assert(s.take(j + 1).drop_last() =~= s.take(j));
        assert(s.take(j + 1).last() == s[j]);
        assert(segment_wf(s[j]));
    }
}

proof fn lemma_seg_sum_nonneg(s: Seq<Segment>)
    requires
        forall|i: int| 0 <= i < s.len() ==> segment_wf(#[trigger] s[i]),
    ensures
        seg_pages_sum(s) >= 0,
    decreases s.len(),
{
    if s.len() > 0 {
        assert(segment_wf(s[s.len() - 1]));
        assert forall|i: int| 0 <= i < s.drop_last().len() implies segment_wf(
            #[trigger] s.drop_last()[i],
        ) by {
            assert(segment_wf(s[i]));
        }
        lemma_seg_sum_nonneg(s.drop_last());
    }
}

proof fn lemma_seg_max_end_ge(s: Seq<Segment>, k: int)
    requires
        0 <= k < s.len(),
    ensures
        s[k].end_vpn <= seg_max_end(s),
    decreases s.len(),
{
    if k < s.len() - 1 {
        lemma_seg_max_end_ge(s.drop_last(), k);
    }
}

proof fn lemma_seg_max_end_bound(s: Seq<Segment>)
    requires
        forall|i: int| 0 <= i < s.len() ==> segment_wf(#[trigger] s[i]),
    ensures
        0 <= seg_max_end(s) <= USER_VPN_LIMIT,
    decreases s.len(),
{
    if s.len() > 0 {
        assert(segment_wf(s[s.len() - 1]));
        assert forall|i: int| 0 <= i < s.drop_last().len() implies segment_wf(
            #[trigger] s.drop_last()[i],
        ) by {
            assert(segment_wf(s[i]));
        }
        lemma_seg_max_end_bound(s.drop_last());
    }
}

/// The top page (exclusive) of the kernel stack of process slot `app_id`;
/// stacks grow downward from just below the trampoline, a guard page apart.
pub open spec fn kstack_top_vpn(app_id: int) -> int {
    TRAMPOLINE_VPN - app_id * (KERNEL_STACK_PAGES as int + 1)
}

/// The bottom page of the kernel stack of process slot `app_id`.
pub open spec fn kstack_bottom_vpn(app_id: int) -> int {
    kstack_top_vpn(app_id) - KERNEL_STACK_PAGES
}

/// The page `vpn` belongs to the kernel stack of slot `app_id`.
pub open spec fn in_kstack(app_id: int, vpn: int) -> bool {
    kstack_bottom_vpn(app_id) <= vpn < kstack_top_vpn(app_id)
}

/// The top virtual page number is large on any machine word width this model
/// admits.
pub proof fn lemma_trampoline_vpn_large()
    ensures
        TRAMPOLINE_VPN >= 0xF_FFFF,
{
    assert(usize::MAX == 0xFFFF_FFFF || usize::MAX == 0xFFFF_FFFF_FFFF_FFFF);
}

/// Kernel stacks of distinct slots never share a page, and every slot's stack
/// lies inside the address space.
pub proof fn lemma_kstack_bounds(app_id: int)
    requires
        0 <= app_id <= MAX_TASKS,
    ensures
        0 < kstack_bottom_vpn(app_id),
        kstack_bottom_vpn(app_id) + KERNEL_STACK_PAGES == kstack_top_vpn(app_id),
        kstack_top_vpn(app_id) <= TRAMPOLINE_VPN,
{
    lemma_trampoline_vpn_large();
    lemma_mul_inequality(0, app_id, KERNEL_STACK_PAGES as int + 1);
    lemma_mul_inequality(app_id, MAX_TASKS as int, KERNEL_STACK_PAGES as int + 1);
}

/// Stacks of two distinct slots are disjoint: the later slot's stack lies
/// wholly below the earlier one's.
pub proof fn lemma_kstack_disjoint(i: int, j: int)
    requires
        0 <= i < j <= MAX_TASKS,
    ensures
        kstack_top_vpn(j) <= kstack_bottom_vpn(i),
{
    lemma_mul_inequality(i + 1, j, KERNEL_STACK_PAGES as int + 1);
    assert((i + 1) * (KERNEL_STACK_PAGES as int + 1) == i * (KERNEL_STACK_PAGES as int + 1) + (
    KERNEL_STACK_PAGES as int + 1)) by (nonlinear_arith);
}

/// Builds a fresh address space from a program image: the segments (made
/// user-accessible), a guard page, the user stack, the trap-frame page and
/// the trampoline, rooted at a freshly granted page-table frame. Returns the
/// space, the initial user stack pointer and the entry point.
pub fn build_address_space(image: &ProgramImage, alloc: &mut FrameAllocator) -> (r: (
    MemorySet,
    usize,
    usize,
))
    requires
        image.wf(),
        old(alloc).wf(),
        image.frames_needed() <= old(alloc).free,
    ensures
        r.0.wf(),
        user_layout(r.0, *image),
        r.0.satp == old(alloc).next_ppn,
        r.0.is_mapped(TRAP_CONTEXT_VPN as int),
        r.1 == (seg_max_end(image.segments@) + 1 + USER_STACK_PAGES) * PAGE_SIZE,
        r.2 == image.entry_point,
        final(alloc).wf(),
        final(alloc).next_ppn == old(alloc).next_ppn + image.frames_needed(),
        final(alloc).free == old(alloc).free - image.frames_needed(),
{
    proof {
        lemma_trampoline_vpn_large();
        lemma_seg_sum_nonneg(image.segments@);
    }
    let root = alloc.alloc_frames(1);
    let mut ms = MemorySet::new_bare(root);
    let n = image.segments.len();
    let mut max_end: usize = 0;
    let ghost segs = image.segments@;
    for i in 0..n
        invariant
            n == segs.len(),
            segs == image.segments@,
            image.wf(),
            ms.wf(),
            ms.satp == root,
            ms.areas@.len() == i,
            forall|k: int|
                0 <= k < i ==> {
                    let a = #[trigger] ms.areas@[k];
                    &&& a.start_vpn == segs[k].start_vpn
                    &&& a.end_vpn == segs[k].end_vpn
                    &&& a.perm == segs[k].perm | PERM_U
                },
            max_end == seg_max_end(segs.take(i as int)),
            0 <= max_end <= USER_VPN_LIMIT,
            alloc.wf(),
            alloc.next_ppn == old(alloc).next_ppn + 1 + seg_pages_sum(segs.take(i as int)),
            alloc.free == old(alloc).free - 1 - seg_pages_sum(segs.take(i as int)),
            image.frames_needed() <= old(alloc).free,
    {
        proof {
            assert(segs.take(i + 1).drop_last() =~= segs.take(i as int));
            assert(segs.take(i + 1).last() == segs[i as int]);
            lemma_seg_sum_take_le(segs, i + 1);
            assert(segment_wf(segs[i as int]));
            if ms.range_overlaps(segs[i as int].start_vpn as int, segs[i as int].end_vpn as int) {
                let v = choose|v: int|
                    segs[i as int].start_vpn <= v < segs[i as int].end_vpn && ms.is_mapped(v);
                crate::mem::lemma_find_area_exists(ms.areas@, v);
                let k = choose|k: int|
                    0 <= k < ms.areas@.len() && area_contains(#[trigger] ms.areas@[k], v);
                assert(segments_disjoint(segs[k], segs[i as int]));
                assert(false);
            }
        }
        let seg = &image.segments[i];
        ms.push_area(seg.start_vpn, seg.end_vpn, seg.perm | PERM_U, alloc);
        if seg.end_vpn > max_end {
            max_end = seg.end_vpn;
        }
    }
    proof {
        assert(segs.take(n as int) =~= segs);
        lemma_seg_max_end_bound(segs);
    }
    let stack_bottom_vpn = max_end + 1;
    let stack_top_vpn = stack_bottom_vpn + USER_STACK_PAGES;
    proof {
        if ms.range_overlaps(stack_bottom_vpn as int, stack_top_vpn as int) {
            let v = choose|v: int| stack_bottom_vpn <= v < stack_top_vpn && ms.is_mapped(v);
            crate::mem::lemma_find_area_exists(ms.areas@, v);
            let k = choose|k: int|
                0 <= k < ms.areas@.len() && area_contains(#[trigger] ms.areas@[k], v);
            lemma_seg_max_end_ge(segs, k);
            assert(false);
        }
    }
    ms.push_area(stack_bottom_vpn, stack_top_vpn, PERM_R | PERM_W | PERM_U, alloc);
    proof {
        if ms.range_overlaps(TRAP_CONTEXT_VPN as int, TRAP_CONTEXT_VPN as int + 1) {
            let v = choose|v: int|
                TRAP_CONTEXT_VPN <= v < TRAP_CONTEXT_VPN as int + 1 && ms.is_mapped(v);
            crate::mem::lemma_find_area_exists(ms.areas@, v);
            let k = choose|k: int|
                0 <= k < ms.areas@.len() && area_contains(#[trigger] ms.areas@[k], v);
            if k < n {
                lemma_seg_max_end_ge(segs, k);
            }
            assert(false);
        }
    }
    ms.push_area(TRAP_CONTEXT_VPN, TRAP_CONTEXT_VPN + 1, PERM_R | PERM_W, alloc);
    proof {
        if ms.range_overlaps(TRAMPOLINE_VPN as int, TRAMPOLINE_VPN as int + 1) {
            let v = choose|v: int| TRAMPOLINE_VPN <= v < TRAMPOLINE_VPN as int + 1 && ms.is_mapped(
                v,
            );
            crate::mem::lemma_find_area_exists(ms.areas@, v);
            let k = choose|k: int|
                0 <= k < ms.areas@.len() && area_contains(#[trigger] ms.areas@[k], v);
            if k < n {
                lemma_seg_max_end_ge(segs, k);
            }
            assert(false);
        }
    }
    ms.map_trampoline();
    proof {
        crate::mem::lemma_find_area_exists(ms.areas@, TRAP_CONTEXT_VPN as int);
        assert(area_contains(ms.areas@[n as int + 1], TRAP_CONTEXT_VPN as int));
        lemma_fundamental_div_mod(usize::MAX as int, PAGE_SIZE as int);
        lemma_mul_inequality(
            stack_top_vpn as int,
            TRAMPOLINE_VPN as int,
            PAGE_SIZE as int,
        );
        assert(TRAMPOLINE_VPN * PAGE_SIZE <= usize::MAX);
    }
    let user_sp = stack_top_vpn * PAGE_SIZE;
    (ms, user_sp, image.entry_point)
}

/// The address space of a freshly created process: one area per segment (in
/// order, user-accessible), then the user stack above a guard page, the
/// trap-frame page and the trampoline.
pub open spec fn user_layout(ms: MemorySet, image: ProgramImage) -> bool {
    let n = image.segments@.len() as int;
    let stack_bottom = seg_max_end(image.segments@) + 1;
    &&& ms.areas@.len() == n + 3
    &&& forall|i: int|
        0 <= i < n ==> {
            let a = #[trigger] ms.areas@[i];
            &&& a.start_vpn == image.segments@[i].start_vpn
            &&& a.end_vpn == image.segments@[i].end_vpn
            &&& a.perm == image.segments@[i].perm | PERM_U
        }
    &&& ms.areas@[n].start_vpn == stack_bottom
    &&& ms.areas@[n].end_vpn == stack_bottom + USER_STACK_PAGES
    &&& ms.areas@[n].perm == PERM_R | PERM_W | PERM_U
    &&& ms.areas@[n + 1].start_vpn == TRAP_CONTEXT_VPN
    &&& ms.areas@[n + 1].end_vpn == TRAP_CONTEXT_VPN + 1
    &&& ms.areas@[n + 1].perm == PERM_R | PERM_W
    &&& ms.areas@[n + 2].start_vpn == TRAMPOLINE_VPN
    &&& ms.areas@[n + 2].end_vpn == TRAMPOLINE_VPN + 1
}

/// Per-process usage counters, all zero.
pub fn zeroed_counters() -> (v: Vec<u32>)
    ensures
        v@.len() == MAX_SYSCALL_NUM,
        forall|i: int| 0 <= i < MAX_SYSCALL_NUM ==> v@[i] == 0,
{
    let mut v: Vec<u32> = Vec::new();
    let mut i: usize = 0;
    while i < MAX_SYSCALL_NUM
        invariant
            i == v@.len(),
            i <= MAX_SYSCALL_NUM,
            forall|k: int| 0 <= k < i ==> v@[k] == 0,
        decreases MAX_SYSCALL_NUM - i,
    {
        v.push(0);
        i = i + 1;
    }
    v
}

/// The process control record: lifecycle status, saved contexts, the owned
/// address space, and the bookkeeping the diagnostic syscalls report.
pub struct TaskControlBlock {
    pub task_status: TaskStatus,
    pub task_cx: TaskContext,
    pub memory_set: MemorySet,
    pub trap_cx_ppn: usize,
    pub trap_cx: TrapContext,
    pub base_size: usize,
    pub syscall_times: Vec<u32>,
    pub first_scheduled: bool,
    pub start_time: usize,
}

/// A record with the new address space of a successful mapping call and every
/// other field unchanged: pages of the widened request range carry the
/// permission derived from `port`, every other page is exactly as before.
pub open spec fn mmap_applied(
    pre: TaskControlBlock,
    post: TaskControlBlock,
    start: int,
    len: int,
    port: usize,
) -> bool {
    let svpn = start / PAGE_SIZE as int;
    let evpn = (start + len + PAGE_SIZE - 1) / PAGE_SIZE as int;
    &&& post.task_status == pre.task_status
    &&& post.task_cx == pre.task_cx
    &&& post.trap_cx == pre.trap_cx
    &&& post.trap_cx_ppn == pre.trap_cx_ppn
    &&& post.base_size == pre.base_size
    &&& post.syscall_times == pre.syscall_times
    &&& post.first_scheduled == pre.first_scheduled
    &&& post.start_time == pre.start_time
    &&& post.memory_set.satp == pre.memory_set.satp
    &&& forall|vpn: int|
        svpn <= vpn < evpn ==> post.memory_set.is_mapped(vpn) && post.memory_set.perm_at(vpn)
            == port_to_perm(port)
    &&& forall|vpn: int|
        !(svpn <= vpn < evpn) ==> find_area(post.memory_set.areas@, vpn) == find_area(
            pre.memory_set.areas@,
            vpn,
        )
}

/// A record with the address space of a successful unmapping call and every
/// other field unchanged: no page of the request range is mapped any more,
/// every other page is exactly as before.
pub open spec fn munmap_applied(
    pre: TaskControlBlock,
    post: TaskControlBlock,
    start: int,
    len: int,
) -> bool {
    let svpn = start / PAGE_SIZE as int;
    let evpn = (start + len + PAGE_SIZE - 1) / PAGE_SIZE as int;
    &&& post.task_status == pre.task_status
    &&& post.task_cx == pre.task_cx
    &&& post.trap_cx == pre.trap_cx
    &&& post.trap_cx_ppn == pre.trap_cx_ppn
    &&& post.base_size == pre.base_size
    &&& post.syscall_times == pre.syscall_times
    &&& post.first_scheduled == pre.first_scheduled
    &&& post.start_time == pre.start_time
    &&& post.memory_set.satp == pre.memory_set.satp
    &&& forall|vpn: int| svpn <= vpn < evpn ==> !post.memory_set.is_mapped(vpn)
    &&& forall|vpn: int|
        !(svpn <= vpn < evpn) ==> find_area(post.memory_set.areas@, vpn) == find_area(
            pre.memory_set.areas@,
            vpn,
        )
}

/// Permission bits granted by a mapping request: the low three request bits
/// shifted into the read/write/execute positions, plus user accessibility.
pub open spec fn port_to_perm(port: usize) -> u8 {
    (((port & 0x7) << 1) as u8) | PERM_U
}

impl TaskControlBlock {
    /// The record's internal consistency: a disjoint address space, a full
    /// counter table, the start-time sentinel until first scheduled, and no
    /// running process that was never scheduled.
    pub open spec fn wf(self) -> bool {
        &&& self.memory_set.wf()
        &&& self.syscall_times@.len() == MAX_SYSCALL_NUM
        &&& (self.first_scheduled ==> self.start_time == usize::MAX)
        &&& (self.task_status is Running ==> !self.first_scheduled)
    }

    /// The saved user register file, writable so the trap path can fill it
    /// and the syscall layer can answer through it.
    pub fn get_trap_cx(&mut self) -> (r: &mut TrapContext)
        ensures
            *r == old(self).trap_cx,
            *final(self) == (TaskControlBlock { trap_cx: *final(r), ..*old(self) }),
    {
        &mut self.trap_cx
    }

    /// The token of the owned address space, handed to the translation
    /// hardware when this process runs.
    pub fn get_user_token(&self) -> (r: usize)
        ensures
            r == self.memory_set.satp,
    {
        self.memory_set.token()
    }

    /// Builds a fresh record for slot `app_id` from a program image: a new
    /// address space, a kernel stack for the slot mapped read-write in the
    /// kernel's space, status `Ready`, zeroed counters, and the not-yet-
    /// scheduled sentinel. Resource exhaustion or a malformed image is fatal
    /// to kernel initialization, not a per-call error, so both are ruled out
    /// here.
    pub fn new(
        image: &ProgramImage,
        app_id: usize,
        kernel_space: &mut MemorySet,
        alloc: &mut FrameAllocator,
    ) -> (tcb: TaskControlBlock)
        requires
            image.wf(),
            old(alloc).wf(),
            old(kernel_space).wf(),
            app_id < MAX_TASKS,
            image.frames_needed() + KERNEL_STACK_PAGES <= old(alloc).free,
            !old(kernel_space).range_overlaps(
                kstack_bottom_vpn(app_id as int),
                kstack_top_vpn(app_id as int),
            ),
        ensures
            tcb.wf(),
            tcb.task_status is Ready,
            tcb.first_scheduled,
            tcb.start_time == usize::MAX,
            forall|i: int| 0 <= i < MAX_SYSCALL_NUM ==> tcb.syscall_times@[i] == 0,
            user_layout(tcb.memory_set, *image),
            tcb.memory_set.satp == old(alloc).next_ppn,
            tcb.memory_set.is_mapped(TRAP_CONTEXT_VPN as int),
            tcb.trap_cx_ppn == tcb.memory_set.ppn_at(TRAP_CONTEXT_VPN as int),
            tcb.base_size == (seg_max_end(image.segments@) + 1 + USER_STACK_PAGES) * PAGE_SIZE,
            tcb.trap_cx.entry_pc == image.entry_point,
            tcb.trap_cx.user_sp == tcb.base_size,
            tcb.trap_cx.kernel_satp == old(kernel_space).satp,
            tcb.trap_cx.kernel_sp == kstack_top_vpn(app_id as int) * PAGE_SIZE,
            tcb.task_cx.kernel_sp == kstack_top_vpn(app_id as int) * PAGE_SIZE,
            final(kernel_space).wf(),
            final(kernel_space).satp == old(kernel_space).satp,
            forall|vpn: int|
                in_kstack(app_id as int, vpn) ==> final(kernel_space).is_mapped(vpn)
                    && final(kernel_space).perm_at(vpn) == PERM_R | PERM_W,
            forall|vpn: int|
                !in_kstack(app_id as int, vpn) ==> find_area(final(kernel_space).areas@, vpn)
                    == find_area(old(kernel_space).areas@, vpn),
            final(alloc).wf(),
            final(alloc).next_ppn == old(alloc).next_ppn + image.frames_needed()
                + KERNEL_STACK_PAGES,
            final(alloc).free == old(alloc).free - image.frames_needed() - KERNEL_STACK_PAGES,
    {
        proof {
            lemma_kstack_bounds(app_id as int);
            lemma_mul_inequality(app_id as int, MAX_TASKS as int, KERNEL_STACK_PAGES as int + 1);
        }
        let (memory_set, user_sp, entry_point) = build_address_space(image, alloc);
        let trap_cx_ppn = memory_set.translate(TRAP_CONTEXT_VPN).unwrap();
        let kernel_stack_top_vpn = TRAMPOLINE_VPN - app_id * (KERNEL_STACK_PAGES + 1);
        let kernel_stack_bottom_vpn = kernel_stack_top_vpn - KERNEL_STACK_PAGES;
        kernel_space.push_area(
            kernel_stack_bottom_vpn,
            kernel_stack_top_vpn,
            PERM_R | PERM_W,
            alloc,
        );
        proof {
            lemma_fundamental_div_mod(usize::MAX as int, PAGE_SIZE as int);
            lemma_mul_inequality(
                kernel_stack_top_vpn as int,
                TRAMPOLINE_VPN as int,
                PAGE_SIZE as int,
            );
        }
        let kernel_stack_top = kernel_stack_top_vpn * PAGE_SIZE;
        let trap_cx = TrapContext::app_init_context(
            entry_point,
            user_sp,
            kernel_space.token(),
            kernel_stack_top,
        );
        TaskControlBlock {
            task_status: TaskStatus::Ready,
            task_cx: TaskContext::goto_trap_return(kernel_stack_top),
            memory_set,
            trap_cx_ppn,
            trap_cx,
            base_size: user_sp,
            syscall_times: zeroed_counters(),
            first_scheduled: true,
            start_time: usize::MAX,
        }
    }

    /// Scheduling hook, invoked on every transition into `Running`: the first
    /// time it stamps the start of this process's running time; afterwards it
    /// is a no-op.
    pub fn update_when_scheduled(&mut self, now: usize)
        ensures
            !final(self).first_scheduled,
            final(self).start_time == if old(self).first_scheduled {
                now as int
            } else {
                old(self).start_time as int
            },
            *final(self) == (TaskControlBlock {
                first_scheduled: false,
                start_time: final(self).start_time,
                ..*old(self)
            }),
    {
        if self.first_scheduled {
            self.first_scheduled = false;
            self.start_time = now;
        }
    }

    /// Microseconds this process has been schedulable, measured from its
    /// first scheduling; callers never ask before that point.
    pub fn running_time(&self, now: usize) -> (r: usize)
        requires
            !self.first_scheduled,
            self.start_time <= now,
        ensures
            r == now - self.start_time,
    {
        now - self.start_time
    }

    /// Applies a mapping request to the owned address space: rejects a range
    /// that overlaps an existing mapping, otherwise maps the widened page
    /// range with the requested permissions plus user access. The caller has
    /// already checked alignment, the permission encoding and the frame
    /// supply.
    pub fn mmap(&mut self, start: usize, len: usize, port: usize, alloc: &mut FrameAllocator) -> (r:
        isize)
        requires
            old(self).memory_set.wf(),
            old(alloc).wf(),
            start + len <= usize::MAX - PAGE_SIZE + 1,
            (start + len + PAGE_SIZE - 1) as int / PAGE_SIZE as int - start as int / PAGE_SIZE
                as int <= old(alloc).free,
        ensures
            final(self).memory_set.wf(),
            final(alloc).wf(),
            r == 0 || r == -1,
            (r == -1) <==> old(self).memory_set.range_overlaps(
                start as int / PAGE_SIZE as int,
                (start + len + PAGE_SIZE - 1) as int / PAGE_SIZE as int,
            ),
            r == -1 ==> *final(self) == *old(self) && *final(alloc) == *old(alloc),
            r == 0 ==> mmap_applied(*old(self), *final(self), start as int, len as int, port),
            r == 0 ==> ({
                let pages = (start + len + PAGE_SIZE - 1) as int / PAGE_SIZE as int - start as int
                    / PAGE_SIZE as int;
                &&& final(alloc).next_ppn == old(alloc).next_ppn + pages
                &&& final(alloc).free == old(alloc).free - pages
            }),
    {
        let start_va = start;
        let end_va = start + len;
        if self.memory_set.is_overlapped(start_va, end_va) {
            return -1;
        }
        let perm: u8 = ((port & 0x7) << 1) as u8;
        self.memory_set.insert_framed_area(start_va, end_va, perm | PERM_U, alloc);
        0
    }

    /// Applies an unmapping request to the owned address space: succeeds
    /// exactly when the widened page range coincides with one previously
    /// mapped region, which it removes whole; any other request fails with
    /// nothing changed.
    pub fn munmap(&mut self, start: usize, len: usize) -> (r: isize)
        requires
            old(self).memory_set.wf(),
            start + len <= usize::MAX - PAGE_SIZE + 1,
        ensures
            final(self).memory_set.wf(),
            r == 0 || r == -1,
            (r == 0) <==> old(self).memory_set.has_exact_area(
                start as int / PAGE_SIZE as int,
                (start + len + PAGE_SIZE - 1) as int / PAGE_SIZE as int,
            ),
            r == -1 ==> *final(self) == *old(self),
            r == 0 ==> munmap_applied(*old(self), *final(self), start as int, len as int),
    {
        let start_va = start;
        let end_va = start + len;
        if self.memory_set.remove_framed_area(start_va, end_va) {
            0
        } else {
            -1
        }
    }
}


/// The diagnostic record `task_info` assembles for the running process:
/// status, the per-syscall usage counters, and elapsed running microseconds.
/// On the wire the status travels as its code (see [`status_code`]), followed
/// by the fixed-length counter table and the time.
#[derive(Debug)]
pub struct TaskInfo {
    pub status: TaskStatus,
    pub syscall_times: Vec<u32>,
    pub time: usize,
}

/// A copy of a usage-counter table.
pub fn clone_counters(v: &Vec<u32>) -> (r: Vec<u32>)
    ensures
        r@ == v@,
{
    let mut r: Vec<u32> = Vec::new();
    let mut i: usize = 0;
    while i < v.len()
        invariant
            i == r@.len(),
            i <= v@.len(),
            forall|k: int| 0 <= k < i ==> r@[k] == v@[k],
        decreases v@.len() - i,
    {
        r.push(v[i]);
        i = i + 1;
    }
    proof {
        assert(r@ =~= v@);
    }
    r
}


} // verus!
