# batch_os

A small RISC-V batch kernel and its heap allocator, written so that their
logic is proved with Verus.

- `src/allocator.rs`: a bump allocator over a 1 MiB heap with a first-fit
  free list; its invariant (blocks in order, inside the heap, no overlap;
  free nodes name blocks once) is kept by `allocate`, `dealloc`,
  `alloc_zeroed` and `realloc`, each specified exactly.
- `src/memops.rs`: `memset`, `memcpy`, `memmove` and BSS clearing over a
  byte vector standing for memory.
- `src/batch.rs`: the table of user programs, the order in which they run,
  the load area and the kernel and user stacks.
- `src/trap.rs`: the trap context, the trap cause read from `scause`, and
  what the kernel does about each trap.
- `src/sbi.rs`, `src/sync.rs`, `src/syscall.rs`: SBI requests, the
  single-processor cell, and the `write` and `exit` system calls.
- `app/`: the machine-facing side (CSR access, `ecall`, copying images,
  logging), which hands plain values to the library.
