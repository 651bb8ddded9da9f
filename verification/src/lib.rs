//! Core of a small multiprocessing kernel for a 64-bit ARM board, modelled as
//! verified data structures: the physical memory region map and its
//! normalization, the frame allocator bitmap, the boot-time bump allocator,
//! the two-level block page tables, the process table with its FIFO run
//! queue and round-robin scheduler, and the trap-frame / syscall dispatch
//! layer. Hardware register access, raw memory writes and the interrupt
//! vectors live outside this crate; everything here works on plain values.

pub mod layout;
pub mod region;
pub mod bootalloc;
pub mod drivers;
pub mod dtb;
pub mod frame;
pub mod kernel;
pub mod paging;
pub mod platform;
pub mod process;
pub mod trap;
