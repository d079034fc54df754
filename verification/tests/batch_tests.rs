use batch_os::batch::{
    init, install_app, AppImage, AppManager, AppRange, KernelStack, LoadError, UserStack, APP_BASE_ADDRESS,
    APP_MAX_SIZE, KERNEL_STACK_SIZE, USER_STACK_SIZE,
};
use batch_os::sync::UpSafeCell;
use batch_os::syscall::{decode_syscall, sys_exit, sys_write, SyscallRequest, FD_STDOUT, SYSCALL_EXIT, SYSCALL_WRITE};
use batch_os::trap::{trap_context_size, TrapContext, SSTATUS_SPP};

fn stacks() -> (KernelStack, UserStack) {
    (KernelStack::new(0x8020_0000), UserStack::new(0x8021_0000))
}

#[test]
fn print_app_info_lists_ranges() {
    let m = AppManager::new(3, &[0x100, 0x200, 0x280, 0x400]);
    let info = m.print_app_info();
    assert_eq!(
        info,
        vec![
            AppRange { start: 0x100, end: 0x200 },
            AppRange { start: 0x200, end: 0x280 },
            AppRange { start: 0x280, end: 0x400 },
        ]
    );
    let empty = AppManager::new(0, &[0x100]);
    assert!(empty.print_app_info().is_empty());
}

#[test]
fn init_reports_through_cell() {
    let mut cell = UpSafeCell::new(AppManager::new(1, &[0x10, 0x20]));
    assert_eq!(init(&mut cell), vec![AppRange { start: 0x10, end: 0x20 }]);
}

#[test]
fn load_app_checks_id_and_size() {
    let m = AppManager::new(2, &[0x1000, 0x1000 + APP_MAX_SIZE, 0x1000 + 2 * APP_MAX_SIZE + 1]);
    assert_eq!(m.load_app(0), Ok(AppImage { app_id: 0, src: 0x1000, size: APP_MAX_SIZE }));
    assert_eq!(m.load_app(1), Err(LoadError::AppTooLarge { app_id: 1, size: APP_MAX_SIZE + 1 }));
    assert_eq!(m.load_app(2), Err(LoadError::InvalidAppId { app_id: 2, num_app: 2 }));
}

#[test]
fn apps_run_in_order_then_stop() {
    let (mut ks, us) = stacks();
    let mut m = AppManager::new(2, &[0x100, 0x180, 0x300]);
    let l0 = m.run_next_app(&mut ks, &us, 0x122).unwrap();
    assert_eq!(l0.image, AppImage { app_id: 0, src: 0x100, size: 0x80 });
    assert_eq!(l0.context_addr, 0x8020_0000 + KERNEL_STACK_SIZE - trap_context_size());
    assert_eq!(l0.context.sepc, APP_BASE_ADDRESS);
    assert_eq!(l0.context.x[2], 0x8021_0000 + USER_STACK_SIZE);
    assert_eq!(l0.context.sstatus, 0x22);
    let l1 = m.run_next_app(&mut ks, &us, 0).unwrap();
    assert_eq!(l1.image.app_id, 1);
    assert_eq!(m.run_next_app(&mut ks, &us, 0).unwrap_err(), LoadError::InvalidAppId { app_id: 2, num_app: 2 });
    assert_eq!(m.run_next_app(&mut ks, &us, 0).unwrap_err(), LoadError::InvalidAppId { app_id: 2, num_app: 2 });
}

#[test]
fn failed_load_does_not_advance() {
    let (mut ks, us) = stacks();
    let mut m = AppManager::new(2, &[0, APP_MAX_SIZE + 1, APP_MAX_SIZE + 2]);
    assert_eq!(m.run_next_app(&mut ks, &us, 0).unwrap_err(), LoadError::AppTooLarge { app_id: 0, size: APP_MAX_SIZE + 1 });
    assert_eq!(m.run_next_app(&mut ks, &us, 0).unwrap_err(), LoadError::AppTooLarge { app_id: 0, size: APP_MAX_SIZE + 1 });
    m.move_to_next_app();
    assert_eq!(m.run_next_app(&mut ks, &us, 0).unwrap().image, AppImage { app_id: 1, src: APP_MAX_SIZE + 1, size: 1 });
}

#[test]
fn sys_exit_starts_next_app() {
    let (mut ks, us) = stacks();
    let mut m = AppManager::new(1, &[0x40, 0x50]);
    let l = sys_exit(&mut m, &mut ks, &us, SSTATUS_SPP, 0).unwrap();
    assert_eq!(l.image, AppImage { app_id: 0, src: 0x40, size: 0x10 });
    assert_eq!(l.context.sstatus, 0);
    assert!(sys_exit(&mut m, &mut ks, &us, 0, -1).is_err());
}

#[test]
fn sys_write_returns_length() {
    assert_eq!(sys_write(FD_STDOUT, b"hello"), 5);
    assert_eq!(sys_write(FD_STDOUT, b""), 0);
}

#[test]
fn stacks_report_their_tops() {
    let (mut ks, us) = stacks();
    assert_eq!(ks.get_sp(), 0x8020_0000 + 8192);
    assert_eq!(us.get_sp(), 0x8021_0000 + 8192);
    let cx = TrapContext::app_init_context(1, 2, 0);
    assert_eq!(ks.push_context(cx), 0x8020_0000 + 8192 - 272);
}

#[test]
fn install_app_copies_and_zero_fills() {
    let mut region = vec![0xEEu8; APP_MAX_SIZE];
    install_app(&mut region, &[1, 2, 3]);
    assert_eq!(&region[..3], &[1, 2, 3]);
    assert!(region[3..].iter().all(|&b| b == 0));
    assert_eq!(region.len(), APP_MAX_SIZE);
}

#[test]
fn cell_gives_exclusive_access() {
    let mut c = UpSafeCell::new(5u32);
    *c.exclusive_access() += 1;
    assert_eq!(*c.exclusive_access(), 6);
}

#[test]
fn getters_read_the_table() {
    let mut m = AppManager::new(2, &[0x10, 0x30, 0x20]);
    assert_eq!(m.num_app(), 2);
    assert_eq!(m.current_app(), 0);
    assert_eq!(m.app_start(0), 0x10);
    assert_eq!(m.app_start(2), 0x20);
    // the first program is in order and loads; the second is not examined yet
    let (mut ks, us) = stacks();
    assert_eq!(m.run_next_app(&mut ks, &us, 0).unwrap().image, AppImage { app_id: 0, src: 0x10, size: 0x20 });
    assert_eq!(m.current_app(), 1);
}

#[test]
fn program_of_a_quarter_mebibyte_loads() {
    assert_eq!(APP_MAX_SIZE, 0x100000);
    let m = AppManager::new(2, &[0x1000, 0x41000, 0x41000 + 0x100001]);
    assert_eq!(m.load_app(0), Ok(AppImage { app_id: 0, src: 0x1000, size: 0x40000 }));
    assert_eq!(m.load_app(1), Err(LoadError::AppTooLarge { app_id: 1, size: 0x100001 }));
}

#[test]
fn syscalls_are_decoded_by_number() {
    assert_eq!(SYSCALL_WRITE, 64);
    assert_eq!(SYSCALL_EXIT, 93);
    assert_eq!(decode_syscall(64, 1, 0x1000, 5), Some(SyscallRequest::Write { fd: 1, buf: 0x1000, len: 5 }));
    assert_eq!(decode_syscall(93, usize::MAX, 7, 8), Some(SyscallRequest::Exit { code: -1 }));
    assert_eq!(decode_syscall(63, 0, 0, 0), None);
}

#[test]
fn trap_context_is_thirty_four_words() {
    assert_eq!(trap_context_size(), 34 * core::mem::size_of::<usize>());
    assert_eq!(trap_context_size(), 272);
}
