//! A small batch-processing kernel and its bump/free-list heap allocator,
//! modelled over plain values so that their logic can be verified.
pub mod allocator;
pub mod batch;
pub mod memops;
pub mod sbi;
pub mod sync;
pub mod syscall;
pub mod trap;
