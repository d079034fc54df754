//! The batch system: the table of user programs linked into the kernel, the
//! order in which they run, and the stacks and context each one starts with.
use vstd::prelude::*;

use crate::memops::{filled, memset};
use crate::sync::UpSafeCell;
use crate::trap::{trap_context_size, user_mode_sstatus, TrapContext};

verus! {

/// Address at which every program is loaded and started.
pub const APP_BASE_ADDRESS: usize = 0x80400000;

/// Largest program image that can be loaded, in bytes (1 MiB).
pub const APP_MAX_SIZE: usize = 0x100000;

/// Largest number of programs the table holds.
pub const MAX_APP_NUM: usize = 16;

/// Entries of the start-address table: one per program and one for the end
/// of the last.
pub const APP_START_SLOTS: usize = 17;

/// Size of the user stack, in bytes.
pub const USER_STACK_SIZE: usize = 4096 * 2;

/// Size of the kernel stack, in bytes.
pub const KERNEL_STACK_SIZE: usize = 4096 * 2;

/// Alignment of both stacks.
pub const STACK_ALIGN: usize = 4096;

/// The start and end address of one program image.
#[derive(Clone, Copy, Debug, PartialEq, Eq, Structural)]
pub struct AppRange {
    pub start: usize,
    pub end: usize,
}

/// A program image to load: where it lies in the kernel image and how large it is.
#[derive(Clone, Copy, Debug, PartialEq, Eq, Structural)]
pub struct AppImage {
    pub app_id: usize,
    pub src: usize,
    pub size: usize,
}

/// Why a program cannot be loaded.
#[derive(Clone, Copy, Debug, PartialEq, Eq, Structural)]
pub enum LoadError {
    /// There is no program with this number.
    InvalidAppId { app_id: usize, num_app: usize },
    /// The image does not fit in the load area.
    AppTooLarge { app_id: usize, size: usize },
}

/// The programs linked into the kernel and which one runs next.
pub struct AppManager {
    num_app: usize,
    current_app: usize,
    app_start: [usize; APP_START_SLOTS],
}

/// The table has room for `num_app` programs.
pub open spec fn table_wf(num_app: nat, app_start: Seq<usize>) -> bool {
    &&& num_app <= MAX_APP_NUM
    &&& app_start.len() >= num_app + 1
}

impl AppManager {
    /// Number of programs.
    pub closed spec fn num_apps(&self) -> usize {
        self.num_app
    }

    /// Number of the program that runs next.
    pub closed spec fn current(&self) -> usize {
        self.current_app
    }

    /// Start address of program `i`; entry `num_apps()` is the end of the last.
    pub closed spec fn start_of(&self, i: int) -> usize {
        self.app_start@[i]
    }

    /// The manager's invariant.
    pub closed spec fn wf(&self) -> bool {
        table_wf(self.num_app as nat, self.app_start@)
    }

    /// Program `i`, if it exists, does not end before it starts.
    pub open spec fn app_in_order(&self, i: int) -> bool {
        0 <= i < self.num_apps() ==> self.start_of(i) <= self.start_of(i + 1)
    }

    /// Size of program `i`'s image.
    pub open spec fn app_size(&self, i: int) -> int {
        self.start_of(i + 1) - self.start_of(i)
    }

    /// The result `load_app(app_id)` gives.
    pub open spec fn load_result(&self, app_id: usize) -> Result<AppImage, LoadError> {
        if app_id >= self.num_apps() {
            Err(LoadError::InvalidAppId { app_id, num_app: self.num_apps() })
        } else if self.app_size(app_id as int) > APP_MAX_SIZE {
            Err(LoadError::AppTooLarge { app_id, size: self.app_size(app_id as int) as usize })
        } else {
            Ok(AppImage { app_id, src: self.start_of(app_id as int), size: self.app_size(app_id as int) as usize })
        }
    }

    /// A manager for the `num_app` programs whose start addresses, followed by
    /// the end of the last, are `app_start`; the first program runs first.
    pub fn new(num_app: usize, app_start: &[usize]) -> (m: AppManager)
        requires
            num_app <= MAX_APP_NUM,
            app_start@.len() == num_app + 1,
        ensures
            m.wf(),
            m.num_apps() == num_app,
            m.current() == 0,
            forall|i: int| 0 <= i <= num_app ==> #[trigger] m.start_of(i) == app_start@[i],
    {
        let mut table: [usize; APP_START_SLOTS] = [0; APP_START_SLOTS];
        let mut i: usize = 0;
        while i <= num_app
            invariant
                num_app <= MAX_APP_NUM,
                app_start@.len() == num_app + 1,
                i <= num_app + 1,
                forall|k: int| 0 <= k < i ==> #[trigger] table@[k] == app_start@[k],
            decreases num_app + 1 - i,
        {
            table[i] = app_start[i];
            i = i + 1;
        }
        AppManager { num_app, current_app: 0, app_start: table }
    }

    /// The address range of each program, in order; their number is the
    /// number of programs.
    pub fn print_app_info(&self) -> (info: Vec<AppRange>)
        requires
            self.wf(),
        ensures
            info@.len() == self.num_apps(),
            forall|i: int| 0 <= i < self.num_apps() ==> #[trigger] info@[i] == (AppRange {
                start: self.start_of(i),
                end: self.start_of(i + 1),
            }),
    {
        let mut info: Vec<AppRange> = Vec::new();
        let mut i: usize = 0;
        while i < self.num_app
            invariant
                self.wf(),
                i <= self.num_app,
                info@.len() == i,
                forall|k: int| 0 <= k < i ==> #[trigger] info@[k] == (AppRange {
                    start: self.start_of(k),
                    end: self.start_of(k + 1),
                }),
            decreases self.num_app - i,
        {
            info.push(AppRange { start: self.app_start[i], end: self.app_start[i + 1] });
            i = i + 1;
        }
        info
    }

    /// Number of programs.
    pub fn num_app(&self) -> (n: usize)
        ensures
            n == self.num_apps(),
    {
        self.num_app
    }

    /// Number of the program that runs next.
    pub fn current_app(&self) -> (c: usize)
        ensures
            c == self.current(),
    {
        self.current_app
    }

    /// Start address of program `i`; entry `num_app()` is the end of the last.
    pub fn app_start(&self, i: usize) -> (a: usize)
        requires
            self.wf(),
            i <= self.num_apps(),
        ensures
            a == self.start_of(i as int),
    {
        self.app_start[i]
    }

    /// Makes the next program the current one.
    pub fn move_to_next_app(&mut self)
        requires
            old(self).current() < usize::MAX,
        ensures
            final(self).current() == old(self).current() + 1,
            final(self).num_apps() == old(self).num_apps(),
            forall|i: int| #[trigger] final(self).start_of(i) == old(self).start_of(i),
            old(self).wf() ==> final(self).wf(),
    {
        self.current_app = self.current_app + 1;
    }

    /// Checks that program `app_id` exists and fits in the load area, and
    /// returns where its image lies.
    pub fn load_app(&self, app_id: usize) -> (r: Result<AppImage, LoadError>)
        requires
            self.wf(),
            self.app_in_order(app_id as int),
        ensures
            r == self.load_result(app_id),
    {
        if app_id >= self.num_app {
            return Err(LoadError::InvalidAppId { app_id, num_app: self.num_app });
        }
        let app_size: usize = self.app_start[app_id + 1] - self.app_start[app_id];
        if app_size > APP_MAX_SIZE {
            return Err(LoadError::AppTooLarge { app_id, size: app_size });
        }
        Ok(AppImage { app_id, src: self.app_start[app_id], size: app_size })
    }

    /// Prepares the current program to run: checks and locates its image,
    /// makes the next program current, and builds the context it starts in
    /// (entry at the load address, the top of `user_stack` as its stack),
    /// pushed on `kernel_stack`. When the current program cannot be loaded
    /// nothing changes.
    pub fn run_next_app(&mut self, kernel_stack: &mut KernelStack, user_stack: &UserStack, sstatus: usize)
        -> (r: Result<Launch, LoadError>)
        requires
            old(self).wf(),
            old(self).app_in_order(old(self).current() as int),
            old(kernel_stack).wf(),
            user_stack.wf(),
        ensures
            final(self).wf(),
            final(kernel_stack).wf(),
            final(kernel_stack).base() == old(kernel_stack).base(),
            final(self).num_apps() == old(self).num_apps(),
            forall|i: int| #[trigger] final(self).start_of(i) == old(self).start_of(i),
            match old(self).load_result(old(self).current()) {
                Ok(image) => {
                    &&& final(self).current() == old(self).current() + 1
                    &&& r is Ok
                    &&& r->Ok_0.image == image
                    &&& r->Ok_0.context_addr == old(kernel_stack).top() - trap_context_size()
                    &&& launch_context(r->Ok_0.context, user_stack.top(), sstatus)
                    &&& final(kernel_stack).pushed_context() == Some(r->Ok_0.context)
                },
                Err(e) => {
                    &&& r == Err::<Launch, LoadError>(e)
                    &&& final(self).current() == old(self).current()
                    &&& *final(kernel_stack) == *old(kernel_stack)
                },
            },
    {
        let current: usize = self.current_app;
        let loaded = self.load_app(current);
        match loaded {
            Ok(image) => {
                self.move_to_next_app();
                let cx = TrapContext::app_init_context(APP_BASE_ADDRESS, user_stack.get_sp(), sstatus);
                let context_addr: usize = kernel_stack.push_context(cx);
                Ok(Launch { image, context_addr, context: cx })
            },
            Err(e) => Err(e),
        }
    }
}

/// The context a program starts in: all registers zero but the stack
/// pointer `sp`, `sepc` at the load address, `sstatus` in user mode.
pub open spec fn launch_context(cx: TrapContext, sp: int, sstatus: usize) -> bool {
    &&& forall|i: int| 0 <= i < 32 ==> #[trigger] cx.x@[i] == if i == 2 { sp } else { 0 }
    &&& cx.sepc == APP_BASE_ADDRESS
    &&& cx.sstatus == user_mode_sstatus(sstatus)
}

/// Everything needed to start a program: its image, and the context to
/// restore, with the address on the kernel stack where it is placed.
#[derive(Clone, Copy, Debug)]
pub struct Launch {
    pub image: AppImage,
    pub context_addr: usize,
    pub context: TrapContext,
}

/// The kernel stack, known by the address of its lowest byte, and the trap
/// context pushed on it, if any; nothing else is ever stored on it.
pub struct KernelStack {
    base: usize,
    pushed: Option<TrapContext>,
}

/// The user stack, known by the address of its lowest byte.
pub struct UserStack {
    base: usize,
}

impl KernelStack {
    /// Address of the lowest byte.
    pub closed spec fn base(&self) -> int {
        self.base as int
    }

    /// The trap context held in the top `trap_context_size()` bytes, if one
    /// was pushed.
    pub closed spec fn pushed_context(&self) -> Option<TrapContext> {
        self.pushed
    }

    /// Address one past the highest byte, where the stack pointer starts.
    pub open spec fn top(&self) -> int {
        self.base() + KERNEL_STACK_SIZE
    }

    /// The stack lies in the address space and is aligned.
    pub open spec fn wf(&self) -> bool {
        &&& self.top() <= usize::MAX
        &&& self.base() % STACK_ALIGN as int == 0
    }

    /// The kernel stack whose lowest byte is at `base`.
    pub fn new(base: usize) -> (s: KernelStack)
        requires
            base + KERNEL_STACK_SIZE <= usize::MAX,
            base % STACK_ALIGN == 0,
        ensures
            s.wf(),
            s.base() == base,
            s.pushed_context() == None::<TrapContext>,
    {
        KernelStack { base, pushed: None }
    }

    /// The initial stack pointer: the top of the stack.
    pub fn get_sp(&self) -> (sp: usize)
        requires
            self.wf(),
        ensures
            sp == self.top(),
    {
        self.base + KERNEL_STACK_SIZE
    }

    /// Places `cx` in the top `trap_context_size()` bytes of the stack, just
    /// below the initial stack pointer, and returns its address. No other
    /// part of the stack changes.
    pub fn push_context(&mut self, cx: TrapContext) -> (addr: usize)
        requires
            old(self).wf(),
        ensures
            addr == old(self).top() - trap_context_size(),
            old(self).base() <= addr,
            final(self).base() == old(self).base(),
            final(self).pushed_context() == Some(cx),
    {
        let addr: usize = self.get_sp() - trap_context_size();
        self.pushed = Some(cx);
        addr
    }
}

impl UserStack {
    /// Address of the lowest byte.
    pub closed spec fn base(&self) -> int {
        self.base as int
    }

    /// Address one past the highest byte, where the stack pointer starts.
    pub open spec fn top(&self) -> int {
        self.base() + USER_STACK_SIZE
    }

    /// The stack lies in the address space and is aligned.
    pub open spec fn wf(&self) -> bool {
        &&& self.top() <= usize::MAX
        &&& self.base() % STACK_ALIGN as int == 0
    }

    /// The user stack whose lowest byte is at `base`.
    pub fn new(base: usize) -> (s: UserStack)
        requires
            base + USER_STACK_SIZE <= usize::MAX,
            base % STACK_ALIGN == 0,
        ensures
            s.wf(),
            s.base() == base,
    {
        UserStack { base }
    }

    /// The initial stack pointer: the top of the stack.
    pub fn get_sp(&self) -> (sp: usize)
        requires
            self.wf(),
        ensures
            sp == self.top(),
    {
        self.base + USER_STACK_SIZE
    }
}

/// Fills the load area `region` with the program `image`: the image's bytes
/// first, zeros after them.
pub fn install_app(region: &mut Vec<u8>, image: &[u8])
    requires
        old(region).len() == APP_MAX_SIZE,
        image@.len() <= APP_MAX_SIZE,
    ensures
        final(region)@.len() == APP_MAX_SIZE,
        forall|k: int| 0 <= k < image@.len() ==> #[trigger] final(region)@[k] == image@[k],
        forall|k: int| image@.len() <= k < APP_MAX_SIZE ==> #[trigger] final(region)@[k] == 0,
{
    memset(region, 0, 0, APP_MAX_SIZE);
    assert(region@ == filled(old(region)@, 0, APP_MAX_SIZE as int, 0u8));
    let mut i: usize = 0;
    while i < image.len()
        invariant
            image@.len() <= APP_MAX_SIZE,
            region@.len() == APP_MAX_SIZE,
            i <= image@.len(),
            forall|k: int| 0 <= k < i ==> #[trigger] region@[k] == image@[k],
            forall|k: int| i <= k < APP_MAX_SIZE ==> #[trigger] region@[k] == 0,
        decreases image@.len() - i,
    {
        region.set(i, image[i]);
        i = i + 1;
    }
}

/// Reports the programs found: the address range of each, in order.
pub fn init(manager: &mut UpSafeCell<AppManager>) -> (info: Vec<AppRange>)
    requires
        old(manager).value().wf(),
    ensures
        final(manager).value() == old(manager).value(),
        info@.len() == old(manager).value().num_apps(),
        forall|i: int| 0 <= i < info@.len() ==> #[trigger] info@[i] == (AppRange {
            start: old(manager).value().start_of(i),
            end: old(manager).value().start_of(i + 1),
        }),
{
    let m = manager.exclusive_access();
    m.print_app_info()
}

} // verus!
