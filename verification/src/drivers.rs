pub mod framebuffer;
pub mod gic;
pub mod keyboard;
pub mod mailbox;
pub mod uart;
