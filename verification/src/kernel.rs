pub mod process;
pub mod syscall;
pub mod vfs;
