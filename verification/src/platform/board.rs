//! Addresses of the emulated board: peripheral window, mailbox, UART,
//! GPIO, and the videocore bus alias for RAM.

use vstd::prelude::*;

verus! {

pub const PERIPHERAL_BASE: usize = 0x3F00_0000;

pub const PERIPHERAL_SIZE: usize = 0x0100_0000;

pub const MBOX_BASE: usize = 0x3F00_B880;

pub const UART_BASE: usize = 0x3F20_1000;

pub const GPIO_BASE: usize = 0x3F20_0000;

/// Bus alias under which the videocore sees ARM RAM.
pub const VC_MEM_BASE: u32 = 0x4000_0000;

/// Mask stripping the bus alias off a videocore address.
pub const VC_MEM_MASK: u32 = 0x3FFF_FFFF;

pub const BOARD_RAM_SIZE: u64 = 0x2_0000_0000;

} // verus!
