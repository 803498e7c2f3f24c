//! Threads of a process.
use vstd::prelude::*;
use crate::mm::kernel_set::{KernelStack, get_kernel_stack_top, kernel_stack_top};
use crate::task::task_context::{TaskContext, TaskStatus};
use crate::mm::frame_allocator::StackFrameAllocator;
use crate::mm::kernel_set::root_ppn_of;
use crate::mm::memory_set::{user_stack_top, user_trap_context_start};
use crate::mm::page_table::{PhysMemory, alloc_ok, table_ok};
use crate::mm::user_set::{UserMemorySets, add_clear_stops, areas, stack_area, trap_context_area, user_area_added};

verus! {

/// A thread: its id, exit code, kernel stack, saved registers and state.
/// `has_user_memory` records whether its private user memory (user stack and
/// trap context) is still mapped.
pub struct Thread {
    pub tid: usize,
    pub exit_code: usize,
    pub kern_stack: KernelStack,
    pub context: TaskContext,
    pub status: TaskStatus,
    pub has_user_memory: bool,
}

impl Thread {
    /// Thread `id` on kernel stack `stack_id`; a new thread is running.
    pub fn new(id: usize, stack_id: usize) -> (r: Self)
        ensures
            r.tid == id,
            r.exit_code == 0,
            r.kern_stack.stack_id == stack_id,
            r.status == TaskStatus::RUNNING,
            r.context.ra == 0 && r.context.sp == 0,
            forall|i: int| 0 <= i < 12 ==> r.context.registers[i] == 0,
            !r.has_user_memory,
    {
        Self {
            tid: id,
            exit_code: 0,
            kern_stack: KernelStack { stack_id },
            context: TaskContext { registers: [0; 12], ra: 0, sp: 0 },
            status: TaskStatus::RUNNING,
            has_user_memory: false,
        }
    }
    /// Prepares the thread's first switch: it starts on the top of its
    /// kernel stack and goes to `trap_return`, the code that returns to
    /// user mode.
    pub fn init_task_data(&mut self, trap_return: u64)
        requires
            kernel_stack_top(old(self).kern_stack.stack_id as nat) <= u64::MAX,
        ensures
            *final(self) == (Thread {
                context: TaskContext {
                    sp: kernel_stack_top(old(self).kern_stack.stack_id as nat) as u64,
                    ra: trap_return,
                    ..old(self).context
                },
                ..*old(self)
            }),
    {
        self.context.sp = get_kernel_stack_top(self.kern_stack.stack_id);
        self.context.ra = trap_return;
    }
}

/// `s` is a new address space over the table with root `root`: it has no
/// area.
pub open spec fn fresh_sets(s: UserMemorySets, root: u64) -> bool {
    s.table.root_ppn.0 == root && areas(s).dom() == Set::<Seq<char>>::empty()
}

/// Where `init_private_memorys` stops, from the new address space `s0`:
/// `add_user_stack` stops, or it succeeds and `add_trap_context` stops.
pub open spec fn private_memory_stops(s0: UserMemorySets, a0: StackFrameAllocator, m0: PhysMemory, tid: usize) -> bool {
    ||| (user_stack_top(tid as nat) as u64) & 0x0000_007F_FFFF_FFFF < 8192
    ||| add_clear_stops(s0, a0, m0, "usr_stack"@, stack_area(tid))
    ||| exists|s1: UserMemorySets, a1: StackFrameAllocator, m1: PhysMemory|
        #[trigger] user_area_added(s0, s1, a0, a1, m0, m1, "usr_stack"@, stack_area(tid))
            && add_clear_stops(s1, a1, m1, "trap_context"@, trap_context_area(tid))
}

impl Thread {
    /// The thread's private memory: a new address space over the process's
    /// table at physical address `root_ppn`, with the thread's user stack
    /// and then its trap-context page added as `add_user_stack` and
    /// `add_trap_context` do. `None` exactly where either stops, as those
    /// say.
    #[verifier::rlimit(40)]
    pub fn init_private_memorys(&self, alloc: &mut StackFrameAllocator, m: &mut PhysMemory, root_ppn: u64) -> (r: Option<
        UserMemorySets,
    >)
        requires
            user_stack_top(self.tid as nat) <= u64::MAX,
            user_trap_context_start(self.tid as nat) <= u64::MAX,
            alloc_ok(*old(alloc), *old(m)),
            table_ok(*old(m), root_ppn_of(root_ppn), old(alloc).free_frames()),
        ensures
            r is Some ==> exists|s0: UserMemorySets, s1: UserMemorySets, a1: StackFrameAllocator, m1: PhysMemory|
                {
                    &&& s0.table.root_ppn.0 == root_ppn_of(root_ppn)
                    &&& areas(s0).dom() == Set::<Seq<char>>::empty()
                    &&& #[trigger] user_area_added(s0, s1, *old(alloc), a1, *old(m), m1, "usr_stack"@, stack_area(self.tid))
                    &&& user_area_added(s1, r.unwrap(), a1, *final(alloc), m1, *final(m), "trap_context"@, trap_context_area(self.tid))
                },
            r is None ==> exists|s0: UserMemorySets|
                #[trigger] fresh_sets(s0, root_ppn_of(root_ppn)) && private_memory_stops(s0, *old(alloc), *old(m), self.tid),
    {
        let mut s = UserMemorySets::new();
        s.table.set_root_ppn(root_ppn);
        let ghost s0 = s;
        if !s.add_user_stack(alloc, m, self.tid) {
            proof {
                assert(areas(s0).dom() =~= Set::<Seq<char>>::empty());
                assert(fresh_sets(s0, root_ppn_of(root_ppn)));
            }
            return None;
        }
        let ghost s1 = s;
        let ghost a1 = *alloc;
        let ghost m1 = *m;
        if !s.add_trap_context(alloc, m, self.tid) {
            proof {
                assert(areas(s0).dom() =~= Set::<Seq<char>>::empty());
                assert(user_area_added(s0, s1, *old(alloc), a1, *old(m), m1, "usr_stack"@, stack_area(self.tid)));
                assert(fresh_sets(s0, root_ppn_of(root_ppn)));
            }
            return None;
        }
        proof {
            assert(user_area_added(s0, s1, *old(alloc), a1, *old(m), m1, "usr_stack"@, stack_area(self.tid)));
        }
        Some(s)
    }
}

} // verus!
