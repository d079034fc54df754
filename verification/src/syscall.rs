//! The kernel's system calls.
use vstd::prelude::*;

use crate::batch::{AppManager, KernelStack, Launch, LoadError, UserStack};

verus! {

/// Number of the `write` system call.
pub const SYSCALL_WRITE: usize = 64;

/// Number of the `exit` system call.
pub const SYSCALL_EXIT: usize = 93;

/// A system call a program asked for, with its arguments.
#[derive(Clone, Copy, Debug, PartialEq, Eq, Structural)]
pub enum SyscallRequest {
    Write { fd: usize, buf: usize, len: usize },
    Exit { code: isize },
}

/// Reads system call `id` with its three argument registers; `None` for a
/// number the kernel does not serve.
pub fn decode_syscall(id: usize, arg0: usize, arg1: usize, arg2: usize) -> (r: Option<SyscallRequest>)
    ensures
        id == SYSCALL_WRITE ==> r == Some(SyscallRequest::Write { fd: arg0, buf: arg1, len: arg2 }),
        id == SYSCALL_EXIT ==> r == Some(SyscallRequest::Exit { code: arg0 as isize }),
        id != SYSCALL_WRITE && id != SYSCALL_EXIT ==> r == None::<SyscallRequest>,
{
    if id == SYSCALL_WRITE {
        Some(SyscallRequest::Write { fd: arg0, buf: arg1, len: arg2 })
    } else if id == SYSCALL_EXIT {
        Some(SyscallRequest::Exit { code: arg0 as isize })
    } else {
        None
    }
}

/// File descriptor of standard output.
pub const FD_STDOUT: usize = 1;

/// `write` on standard output: the bytes of `buf`, which must be UTF-8, are
/// printed, and their number is returned.
pub fn sys_write(fd: usize, buf: &[u8]) -> (r: isize)
    requires
        fd == FD_STDOUT,
        vstd::utf8::valid_utf8(buf@),
        buf@.len() <= isize::MAX,
    ensures
        r == buf@.len(),
{
    buf.len() as isize
}

/// `exit`: the calling program ends and the next one is prepared to run,
/// exactly as `run_next_app` does.
pub fn sys_exit(manager: &mut AppManager, kernel_stack: &mut KernelStack, user_stack: &UserStack,
    sstatus: usize, exit_code: isize) -> (r: Result<Launch, LoadError>)
    requires
        old(manager).wf(),
        old(manager).app_in_order(old(manager).current() as int),
        old(kernel_stack).wf(),
        user_stack.wf(),
    ensures
        final(manager).wf(),
        final(kernel_stack).wf(),
        final(manager).num_apps() == old(manager).num_apps(),
        forall|i: int| #[trigger] final(manager).start_of(i) == old(manager).start_of(i),
        final(kernel_stack).base() == old(kernel_stack).base(),
        match old(manager).load_result(old(manager).current()) {
            Ok(image) => {
                &&& final(manager).current() == old(manager).current() + 1
                &&& r is Ok
                &&& r->Ok_0.image == image
                &&& r->Ok_0.context_addr == old(kernel_stack).top() - crate::trap::trap_context_size()
                &&& crate::batch::launch_context(r->Ok_0.context, user_stack.top(), sstatus)
                &&& final(kernel_stack).pushed_context() == Some(r->Ok_0.context)
            },
            Err(e) => {
                &&& r == Err::<Launch, LoadError>(e)
                &&& final(manager).current() == old(manager).current()
                &&& *final(kernel_stack) == *old(kernel_stack)
            },
        },
{
    manager.run_next_app(kernel_stack, user_stack, sstatus)
}

} // verus!
