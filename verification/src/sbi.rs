//! Requests to the supervisor binary interface and the machine's exit device.
use vstd::prelude::*;

verus! {

/// SBI extension number of the legacy console output call.
pub const SBI_CONSOLE_PUTCHAR: usize = 1;

/// The registers of an `ecall` into the SBI: `which` goes in `x17`, the
/// arguments in `x10..x12`.
#[derive(Clone, Copy, Debug, PartialEq, Eq, Structural)]
pub struct SbiCall {
    pub which: usize,
    pub arg0: usize,
    pub arg1: usize,
    pub arg2: usize,
}

/// The SBI call that prints the character `c` on the console.
pub fn console_putchar(c: usize) -> (call: SbiCall)
    ensures
        call == (SbiCall { which: SBI_CONSOLE_PUTCHAR, arg0: c, arg1: 0, arg2: 0 }),
{
    SbiCall { which: SBI_CONSOLE_PUTCHAR, arg0: c, arg1: 0, arg2: 0 }
}

/// How the machine is asked to stop.
#[derive(Clone, Copy, Debug, PartialEq, Eq, Structural)]
pub enum MachineExit {
    Success,
    Failure,
}

/// The exit that a shutdown with the given outcome requests.
pub fn shutdown(success: bool) -> (e: MachineExit)
    ensures
        success ==> e == MachineExit::Success,
        !success ==> e == MachineExit::Failure,
{
    if success {
        MachineExit::Success
    } else {
        MachineExit::Failure
    }
}

} // verus!
