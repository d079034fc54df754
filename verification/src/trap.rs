//! Trap context of a user program and the trap dispatcher's decisions.
use riscv::interrupt::Trap;
use riscv::register::scause::Scause;
use vstd::arithmetic::div_mod::{lemma_mod_sub_multiples_vanish, lemma_small_mod};
use vstd::prelude::*;

verus! {

/// Bytes a `TrapContext` occupies on the kernel stack: 32 general registers,
/// `sstatus` and `sepc`, one word each.
pub open spec fn trap_context_size_spec() -> usize {
    if usize::BITS == 64 { 272 } else { 136 }
}

/// Bytes a `TrapContext` occupies on the kernel stack: 34 words.
#[verifier::when_used_as_spec(trap_context_size_spec)]
pub fn trap_context_size() -> (n: usize)
    ensures
        n == trap_context_size_spec(),
{
    proof {
        broadcast use vstd::layout::layout_of_primitives;
    }
    34 * core::mem::size_of::<usize>()
}

/// `sepc` advanced past the 4-byte `ecall` instruction, wrapping around at
/// the top of the address space.
pub open spec fn next_sepc(sepc: usize) -> usize {
    if sepc + 4 <= usize::MAX { (sepc + 4) as usize } else { (sepc + 4 - usize::MAX - 1) as usize }
}

/// The SPP bit of `sstatus`: the privilege level a trap came from (set for
/// supervisor, clear for user).
pub const SSTATUS_SPP: usize = 0x100;

/// Registers saved when a user program traps into the kernel.
#[derive(Clone, Copy, Debug)]
pub struct TrapContext {
    pub x: [usize; 32],
    pub sstatus: usize,
    pub sepc: usize,
}

/// `sstatus` with SPP cleared, so that `sret` returns to user mode; every
/// other bit is kept.
pub open spec fn user_mode_sstatus(bits: usize) -> usize {
    bits & !SSTATUS_SPP
}

/// Switching to user mode clears SPP and keeps every other bit.
pub proof fn lemma_user_mode_sstatus(bits: usize)
    ensures
        user_mode_sstatus(bits) & SSTATUS_SPP == 0,
        user_mode_sstatus(bits) | (bits & SSTATUS_SPP) == bits,
{
    assert((bits & !0x100usize) & 0x100usize == 0) by (bit_vector);
    assert((bits & !0x100usize) | (bits & 0x100usize) == bits) by (bit_vector);
}

/// The handled cause that an `scause` value records: an exception (top bit
/// clear) whose code is 2, 7, 8 or 15; `None` for an interrupt or any other
/// exception.
pub open spec fn scause_trap_cause(scause: usize) -> Option<TrapCause> {
    if scause > isize::MAX {
        None
    } else if scause == EXC_ILLEGAL_INSTRUCTION {
        Some(TrapCause::IllegalInstruction)
    } else if scause == EXC_STORE_FAULT {
        Some(TrapCause::StoreFault)
    } else if scause == EXC_USER_ENV_CALL {
        Some(TrapCause::UserEnvCall)
    } else if scause == EXC_STORE_PAGE_FAULT {
        Some(TrapCause::StorePageFault)
    } else {
        None
    }
}

/// Supervisor exception code of an illegal instruction.
pub const EXC_ILLEGAL_INSTRUCTION: usize = 2;

/// Supervisor exception code of a store access fault.
pub const EXC_STORE_FAULT: usize = 7;

/// Supervisor exception code of an environment call from user mode.
pub const EXC_USER_ENV_CALL: usize = 8;

/// Supervisor exception code of a store page fault.
pub const EXC_STORE_PAGE_FAULT: usize = 15;

/// `riscv::register::scause::Scause::from_bits(..).cause()`, read as a pair:
/// whether the trap is an interrupt (the top bit) and its code (the other
/// bits).
#[verifier::external_body]
fn scause_cause(scause: usize) -> (c: (bool, usize))
    ensures
        c.0 == (scause > isize::MAX),
        c.1 == if scause > isize::MAX { scause - (isize::MAX + 1) } else { scause as int },
{
    match Scause::from_bits(scause).cause() {
        Trap::Interrupt(code) => (true, code),
        Trap::Exception(code) => (false, code),
    }
}

impl TrapContext {
    /// Sets the stack pointer (`x2`).
    pub fn set_sp(&mut self, sp: usize)
        ensures
            final(self).x@ == old(self).x@.update(2, sp),
            final(self).sstatus == old(self).sstatus,
            final(self).sepc == old(self).sepc,
    {
        self.x[2] = sp;
    }

    /// The context in which a user program starts: all registers zero but the
    /// stack pointer `sp`, `sepc` at the program's `entry`, and the current
    /// `sstatus` with SPP cleared to user mode.
    pub fn app_init_context(entry: usize, sp: usize, sstatus: usize) -> (cx: TrapContext)
        ensures
            cx.x@ == Seq::new(32, |i: int| if i == 2 { sp } else { 0usize }),
            cx.sstatus == user_mode_sstatus(sstatus),
            cx.sepc == entry,
    {
        let user_sstatus: usize = sstatus & !SSTATUS_SPP;
        let mut cx = TrapContext { x: [0; 32], sstatus: user_sstatus, sepc: entry };
        cx.set_sp(sp);
        assert(cx.x@ =~= Seq::new(32, |i: int| if i == 2 { sp } else { 0usize }));
        cx
    }
}

/// An environment call moves `sepc` exactly four bytes on, modulo the size
/// of the address space, whatever its alignment.
pub proof fn lemma_next_sepc_adds_four(sepc: usize)
    ensures
        next_sepc(sepc) as int == (sepc as int + 4) % (usize::MAX as int + 1),
{
    let m: int = usize::MAX as int + 1;
    if sepc + 4 <= usize::MAX {
        lemma_small_mod((sepc + 4) as nat, m as nat);
    } else {
        lemma_mod_sub_multiples_vanish(sepc as int + 4 - m, m);
        lemma_small_mod((sepc as int + 4 - m) as nat, m as nat);
    }
}

/// Exactly four `scause` values name a handled trap: exception codes 2
/// (illegal instruction), 7 (store fault), 8 (environment call from user
/// mode) and 15 (store page fault); every other value, interrupts included,
/// names none.
pub proof fn lemma_handled_trap_causes(scause: usize)
    ensures
        (scause_trap_cause(scause) == Some(TrapCause::IllegalInstruction)) <==> scause == 2,
        (scause_trap_cause(scause) == Some(TrapCause::StoreFault)) <==> scause == 7,
        (scause_trap_cause(scause) == Some(TrapCause::UserEnvCall)) <==> scause == 8,
        (scause_trap_cause(scause) == Some(TrapCause::StorePageFault)) <==> scause == 15,
        (scause_trap_cause(scause) == None::<TrapCause>) <==> (scause != 2 && scause != 7 && scause != 8
            && scause != 15),
{
}

/// The trap causes the kernel handles.
#[derive(Clone, Copy, Debug, PartialEq, Eq, Structural)]
pub enum TrapCause {
    UserEnvCall,
    StoreFault,
    StorePageFault,
    IllegalInstruction,
}

/// The handled cause of a trap, read from the value of `scause`; `None` when
/// the kernel does not handle it.
pub fn trap_cause(scause: usize) -> (c: Option<TrapCause>)
    ensures
        c == scause_trap_cause(scause),
        (c == Some(TrapCause::IllegalInstruction)) <==> scause == 2,
        (c == Some(TrapCause::StoreFault)) <==> scause == 7,
        (c == Some(TrapCause::UserEnvCall)) <==> scause == 8,
        (c == Some(TrapCause::StorePageFault)) <==> scause == 15,
{
    proof { lemma_handled_trap_causes(scause); }
    let (interrupt, code) = scause_cause(scause);
    if interrupt {
        None
    } else if code == EXC_ILLEGAL_INSTRUCTION {
        Some(TrapCause::IllegalInstruction)
    } else if code == EXC_STORE_FAULT {
        Some(TrapCause::StoreFault)
    } else if code == EXC_USER_ENV_CALL {
        Some(TrapCause::UserEnvCall)
    } else if code == EXC_STORE_PAGE_FAULT {
        Some(TrapCause::StorePageFault)
    } else {
        None
    }
}

/// The faults that end the running program.
#[derive(Clone, Copy, Debug, PartialEq, Eq, Structural)]
pub enum Fault {
    Store,
    IllegalInstruction,
}

/// What the kernel does about a trap.
#[derive(Clone, Copy, Debug, PartialEq, Eq, Structural)]
pub enum TrapAction {
    /// Serve system call `id` with these arguments, then hand its result to
    /// `complete_syscall` and return to the program.
    Syscall { id: usize, arg0: usize, arg1: usize, arg2: usize },
    /// Report the fault at address `stval` (instruction at `sepc`) and run the
    /// next program.
    RunNextApp { fault: Fault, stval: usize, sepc: usize },
}

/// Decides what to do about a trap of the given cause. An environment call
/// advances `sepc` past the `ecall` instruction and asks for system call
/// `x17` with arguments `x10..x12`; a store fault or an illegal instruction
/// ends the program.
pub fn trap_handler(cx: &mut TrapContext, cause: TrapCause, stval: usize) -> (a: TrapAction)
    ensures
        match cause {
            TrapCause::UserEnvCall => {
                &&& a == TrapAction::Syscall { id: old(cx).x[17], arg0: old(cx).x[10], arg1: old(cx).x[11], arg2: old(cx).x[12] }
                &&& final(cx).sepc == next_sepc(old(cx).sepc)
                &&& final(cx).sepc as int == (old(cx).sepc as int + 4) % (usize::MAX as int + 1)
                &&& final(cx).x == old(cx).x
                &&& final(cx).sstatus == old(cx).sstatus
            },
            TrapCause::StoreFault | TrapCause::StorePageFault => {
                &&& a == TrapAction::RunNextApp { fault: Fault::Store, stval, sepc: old(cx).sepc }
                &&& *final(cx) == *old(cx)
            },
            TrapCause::IllegalInstruction => {
                &&& a == TrapAction::RunNextApp { fault: Fault::IllegalInstruction, stval, sepc: old(cx).sepc }
                &&& *final(cx) == *old(cx)
            },
        },
{
    proof { lemma_next_sepc_adds_four(cx.sepc); }
    match cause {
        TrapCause::UserEnvCall => {
            cx.sepc = if cx.sepc <= usize::MAX - 4 { cx.sepc + 4 } else { cx.sepc - (usize::MAX - 3) };
            TrapAction::Syscall { id: cx.x[17], arg0: cx.x[10], arg1: cx.x[11], arg2: cx.x[12] }
        },
        TrapCause::StoreFault | TrapCause::StorePageFault => {
            TrapAction::RunNextApp { fault: Fault::Store, stval, sepc: cx.sepc }
        },
        TrapCause::IllegalInstruction => {
            TrapAction::RunNextApp { fault: Fault::IllegalInstruction, stval, sepc: cx.sepc }
        },
    }
}

/// Stores a system call's result in `x10`, where the program reads it.
pub fn complete_syscall(cx: &mut TrapContext, ret: isize)
    ensures
        final(cx).x@ == old(cx).x@.update(10, ret as usize),
        final(cx).sstatus == old(cx).sstatus,
        final(cx).sepc == old(cx).sepc,
{
    cx.x[10] = ret as usize;
}

} // verus!
