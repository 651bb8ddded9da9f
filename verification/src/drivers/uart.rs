//! Serial port configuration and baud arithmetic. Register access is
//! hardware I/O and lives outside this crate; this state records what
//! boot-information discovery found and what the init sequence needs.

use vstd::prelude::*;

verus! {

pub const UART_DR: usize = 0x00;

pub const UART_FR: usize = 0x18;

pub const UART_IBRD: usize = 0x24;

pub const UART_FBRD: usize = 0x28;

pub const UART_LCRH: usize = 0x2C;

pub const UART_CR: usize = 0x30;

pub const UART_IMSC: usize = 0x38;

pub const UART_ICR: usize = 0x44;

/// Serial-port configuration: register base, clocking and register
/// layout discovered from the boot information, and readiness.
pub struct Uart {
    pub base: usize,
    pub clock_hz: u32,
    pub reg_shift: u32,
    pub reg_io_width: u32,
    pub skip_init: bool,
    pub ready: bool,
}

impl Uart {
    /// A port at the given register base, not yet initialized, with the
    /// conventional 32-bit registers at stride 1.
    pub fn new(base: usize) -> (r: Uart)
        ensures
            r.base == base,
            r.clock_hz == 0,
            r.reg_shift == 0,
            r.reg_io_width == 4,
            !r.skip_init,
            !r.ready,
    {
        Uart { base, clock_hz: 0, reg_shift: 0, reg_io_width: 4, skip_init: false, ready: false }
    }

    pub fn set_base(&mut self, base: usize)
        ensures
            *final(self) == (Uart { base, ..*old(self) }),
    {
        self.base = base;
    }

    pub fn set_clock_hz(&mut self, clock: Option<u32>)
        ensures
            *final(self) == (Uart {
                clock_hz: match clock {
                    Some(c) => c,
                    None => 0,
                },
                ..*old(self)
            }),
    {
        self.clock_hz = match clock {
            Some(c) => c,
            None => 0,
        };
    }

    pub fn set_reg_shift(&mut self, shift: u32)
        ensures
            *final(self) == (Uart { reg_shift: shift, ..*old(self) }),
    {
        self.reg_shift = shift;
    }

    pub fn set_reg_io_width(&mut self, width: u32)
        ensures
            *final(self) == (Uart { reg_io_width: width, ..*old(self) }),
    {
        self.reg_io_width = width;
    }

    pub fn set_skip_init(&mut self, skip: bool)
        ensures
            *final(self) == (Uart { skip_init: skip, ..*old(self) }),
    {
        self.skip_init = skip;
    }

    pub fn set_ready(&mut self, ready: bool)
        ensures
            *final(self) == (Uart { ready, ..*old(self) }),
    {
        self.ready = ready;
    }

    pub fn is_ready(&self) -> (r: bool)
        ensures
            r == self.ready,
    {
        self.ready
    }

    /// The address of a register at `offset`, under the discovered
    /// register stride.
    pub fn reg_addr(&self, offset: usize) -> (r: usize)
        requires
            self.reg_shift < 16,
            offset < 0x1000,
            self.base + (offset << self.reg_shift as usize) <= usize::MAX,
        ensures
            r == self.base + (offset << self.reg_shift as usize),
    {
        self.base + (offset << (self.reg_shift as usize))
    }
}

/// Integer and fractional baud-rate divisors for a PL011-style port:
/// the integer part of clock / (16 * baud), and the fraction rounded to
/// sixty-fourths, capped at 63. A zero baud rate yields zero divisors.
pub fn baud_divisors(clock_hz: u32, baud: u32) -> (r: (u32, u32))
    ensures
        baud == 0 ==> r == (0u32, 0u32),
        baud != 0 ==> ({
            let denom = 16 * baud as int;
            let frac = ((clock_hz as int % denom) * 64 + denom / 2) / denom;
            &&& r.0 == clock_hz as int / denom
            &&& r.1 == if frac > 63 {
                63int
            } else {
                frac
            }
        }),
{
    let baud64 = baud as u64;
    let clock = clock_hz as u64;
    if baud64 == 0 {
        return (0, 0);
    }
    let denom = 16 * baud64;
    let ibrd = (clock / denom) as u32;
    let rem = clock % denom;
    let frac64 = (rem * 64 + denom / 2) / denom;
    proof {
        assert(clock / denom <= clock) by (nonlinear_arith)
            requires
                denom >= 1,
                clock >= 0,
        ;
        assert(clock % denom < denom) by (nonlinear_arith)
            requires
                denom >= 1,
        ;
        assert(frac64 <= 0xFFFF_FFFF) by (nonlinear_arith)
            requires
                denom >= 16,
                denom <= 0x10_0000_0000,
                rem < denom,
                frac64 == ((rem as int * 64 + denom as int / 2) / (denom as int)),
        ;
    }
    let frac = frac64 as u32;
    let fbrd = if frac > 63 {
        63
    } else {
        frac
    };
    (ibrd, fbrd)
}

} // verus!
