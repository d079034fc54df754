use batch_os::sbi::{console_putchar, shutdown, MachineExit, SbiCall, SBI_CONSOLE_PUTCHAR};
use batch_os::trap::{
    complete_syscall, trap_cause, trap_handler, Fault, TrapAction, TrapCause, TrapContext, SSTATUS_SPP,
};

fn sample() -> TrapContext {
    let mut x = [0usize; 32];
    x[10] = 1;
    x[11] = 0x8040_1000;
    x[12] = 5;
    x[17] = 64;
    TrapContext { x, sstatus: 0x20, sepc: 0x8040_0010 }
}

#[test]
fn app_init_context_sets_entry_stack_and_user_mode() {
    let cx = TrapContext::app_init_context(0x8040_0000, 0x1000, 0x122);
    assert_eq!(cx.sepc, 0x8040_0000);
    assert_eq!(cx.x[2], 0x1000);
    assert_eq!(cx.sstatus, 0x22);
    assert_eq!(cx.sstatus & SSTATUS_SPP, 0);
    assert!(cx.x.iter().enumerate().all(|(i, &r)| i == 2 || r == 0));
}

#[test]
fn set_sp_writes_x2() {
    let mut cx = sample();
    cx.set_sp(77);
    assert_eq!(cx.x[2], 77);
    assert_eq!(cx.x[10], 1);
}

#[test]
fn env_call_requests_syscall_and_skips_ecall() {
    let mut cx = sample();
    let a = trap_handler(&mut cx, TrapCause::UserEnvCall, 0);
    assert_eq!(a, TrapAction::Syscall { id: 64, arg0: 1, arg1: 0x8040_1000, arg2: 5 });
    assert_eq!(cx.sepc, 0x8040_0014);
    complete_syscall(&mut cx, 5);
    assert_eq!(cx.x[10], 5);
    complete_syscall(&mut cx, -1);
    assert_eq!(cx.x[10], usize::MAX);
}

#[test]
fn faults_end_the_program() {
    let mut cx = sample();
    assert_eq!(
        trap_handler(&mut cx, TrapCause::StoreFault, 0xdead),
        TrapAction::RunNextApp { fault: Fault::Store, stval: 0xdead, sepc: 0x8040_0010 }
    );
    assert_eq!(
        trap_handler(&mut cx, TrapCause::StorePageFault, 1),
        TrapAction::RunNextApp { fault: Fault::Store, stval: 1, sepc: 0x8040_0010 }
    );
    assert_eq!(
        trap_handler(&mut cx, TrapCause::IllegalInstruction, 2),
        TrapAction::RunNextApp { fault: Fault::IllegalInstruction, stval: 2, sepc: 0x8040_0010 }
    );
    assert_eq!(cx.sepc, 0x8040_0010);
}

#[test]
fn sbi_requests() {
    assert_eq!(console_putchar(b'A' as usize), SbiCall { which: SBI_CONSOLE_PUTCHAR, arg0: 65, arg1: 0, arg2: 0 });
    assert_eq!(shutdown(true), MachineExit::Success);
    assert_eq!(shutdown(false), MachineExit::Failure);
}

#[test]
fn app_init_context_keeps_every_other_bit() {
    let cx = TrapContext::app_init_context(0, 0, usize::MAX);
    assert_eq!(cx.sstatus, usize::MAX & !0x100);
    let cx = TrapContext::app_init_context(0, 0, 0x200);
    assert_eq!(cx.sstatus, 0x200);
    let cx = TrapContext::app_init_context(0, 0, 0x740);
    assert_eq!(cx.sstatus, 0x640);
}

#[test]
fn env_call_at_top_of_address_space_wraps() {
    let mut cx = sample();
    cx.sepc = usize::MAX - 1;
    let _ = trap_handler(&mut cx, TrapCause::UserEnvCall, 0);
    assert_eq!(cx.sepc, 2);
}

#[test]
fn trap_cause_reads_exception_codes() {
    assert_eq!(trap_cause(8), Some(TrapCause::UserEnvCall));
    assert_eq!(trap_cause(7), Some(TrapCause::StoreFault));
    assert_eq!(trap_cause(15), Some(TrapCause::StorePageFault));
    assert_eq!(trap_cause(2), Some(TrapCause::IllegalInstruction));
    assert_eq!(trap_cause(13), None);
    assert_eq!(trap_cause(9), None);
    assert_eq!(trap_cause(1000), None);
    // the top bit marks an interrupt
    assert_eq!(trap_cause((1 << 63) | 8), None);
    assert_eq!(trap_cause((1 << 63) | 5), None);
}
