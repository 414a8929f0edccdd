//! The PL011 UART: its register map and the decisions of its driver. The
//! driver's register reads and writes are made by the caller, which hands
//! each value read back to the step that asked for it.
use vstd::prelude::*;

verus! {

/// Data register: the received character (bits 7:0).
pub const DR_DATA: u32 = 0xff;

/// Flag register: transmit FIFO full (bit 5).
pub const FR_TXFF: u32 = 0x20;
/// Flag register: receive FIFO empty (bit 4).
pub const FR_RXFE: u32 = 0x10;
/// Flag register: UART busy (bit 3).
pub const FR_BUSY: u32 = 0x08;

/// Line control: word length 8 bits (bits 6:5).
pub const LCR_H_WLEN: u32 = 0x60;
/// Line control: FIFOs enabled (bit 4).
pub const LCR_H_FEN: u32 = 0x10;
/// Line control: two stop bits (bit 3).
pub const LCR_H_STP2: u32 = 0x08;

/// Control: UART enabled (bit 0).
pub const CR_UARTEN: u32 = 0x01;

/// The registers the driver uses.
#[derive(PartialEq, Eq, Structural, Debug, Clone, Copy)]
pub enum Reg {
    Dr,
    Fr,
    Ibrd,
    Fbrd,
    LcrH,
    Cr,
}

/// Byte offset of a register in the register block.
pub open spec fn reg_offset(reg: Reg) -> u64 {
    match reg {
        Reg::Dr => 0x00,
        Reg::Fr => 0x18,
        Reg::Ibrd => 0x24,
        Reg::Fbrd => 0x28,
        Reg::LcrH => 0x2c,
        Reg::Cr => 0x30,
    }
}

/// A UART whose register block starts at a physical address.
pub struct PL011 {
    regs: u64,
}

impl PL011 {
    /// Address of the register block.
    pub closed spec fn base(&self) -> u64 {
        self.regs
    }

    pub fn new(base: u64) -> (r: Self)
        ensures
            r.base() == base,
    {
        Self { regs: base }
    }

    /// Address of a register.
    pub fn register_address(&self, reg: Reg) -> (r: u64)
        requires
            self.base() + 0x30 <= u64::MAX,
        ensures
            r == self.base() + reg_offset(reg),
    {
        let offset: u64 = match reg {
            Reg::Dr => 0x00,
            Reg::Fr => 0x18,
            Reg::Ibrd => 0x24,
            Reg::Fbrd => 0x28,
            Reg::LcrH => 0x2c,
            Reg::Cr => 0x30,
        };
        self.regs + offset
    }
}

/// One register access the driver asks for, or the end of a sequence.
#[derive(PartialEq, Eq, Structural, Debug, Clone, Copy)]
pub enum UartOp {
    Read(Reg),
    Write(Reg, u32),
    Done,
}

/// Where the initialisation sequence stands. The value handed to a step is
/// the value of the register read in the step before.
#[derive(PartialEq, Eq, Structural, Debug, Clone, Copy)]
pub enum InitPhase {
    Start,
    DisableUart,
    WaitIdle,
    CheckIdle,
    DisableFifo,
    SetIntegerDivisor,
    SetFractionalDivisor,
    ReadLineControl,
    ConfigureLine,
    ReadControl,
    EnableUart,
    Finished,
}

/// The line control value that enables the FIFOs, selects 8-bit words and
/// one stop bit, keeping the other bits of `v`.
pub open spec fn line_config(v: u32) -> u32 {
    (v | LCR_H_FEN | LCR_H_WLEN) & !LCR_H_STP2
}

/// One step of initialisation: the next phase and the access to make.
pub open spec fn init_next(phase: InitPhase, value: u32) -> (InitPhase, UartOp) {
    match phase {
        InitPhase::Start => (InitPhase::DisableUart, UartOp::Read(Reg::Cr)),
        InitPhase::DisableUart => (InitPhase::WaitIdle, UartOp::Write(Reg::Cr, value & !CR_UARTEN)),
        InitPhase::WaitIdle => (InitPhase::CheckIdle, UartOp::Read(Reg::Fr)),
        InitPhase::CheckIdle => if value & FR_BUSY != 0 {
            (InitPhase::CheckIdle, UartOp::Read(Reg::Fr))
        } else {
            (InitPhase::DisableFifo, UartOp::Read(Reg::LcrH))
        },
        InitPhase::DisableFifo => (
            InitPhase::SetIntegerDivisor,
            UartOp::Write(Reg::LcrH, value & !LCR_H_FEN),
        ),
        InitPhase::SetIntegerDivisor => (InitPhase::SetFractionalDivisor, UartOp::Write(Reg::Ibrd, 3)),
        InitPhase::SetFractionalDivisor => (InitPhase::ReadLineControl, UartOp::Write(Reg::Fbrd, 16)),
        InitPhase::ReadLineControl => (InitPhase::ConfigureLine, UartOp::Read(Reg::LcrH)),
        InitPhase::ConfigureLine => (InitPhase::ReadControl, UartOp::Write(Reg::LcrH, line_config(value))),
        InitPhase::ReadControl => (InitPhase::EnableUart, UartOp::Read(Reg::Cr)),
        InitPhase::EnableUart => (InitPhase::Finished, UartOp::Write(Reg::Cr, value | CR_UARTEN)),
        InitPhase::Finished => (InitPhase::Finished, UartOp::Done),
    }
}

/// One step of initialisation: disable the UART, wait until it is idle,
/// disable the FIFOs, set the baud rate divisors for 460800 baud
/// (integer 3, fraction 16), configure the line and enable the UART.
pub fn init_step(phase: InitPhase, value: u32) -> (r: (InitPhase, UartOp))
    ensures
        r == init_next(phase, value),
        phase == InitPhase::CheckIdle && value & 0x08 != 0 ==> r == (InitPhase::CheckIdle, UartOp::Read(Reg::Fr)),
        phase == InitPhase::CheckIdle && value & 0x08 == 0 ==> r == (InitPhase::DisableFifo, UartOp::Read(Reg::LcrH)),
        phase == InitPhase::DisableUart ==> (r.1 matches UartOp::Write(_, w) && w & CR_UARTEN == 0
            && w | CR_UARTEN == value | CR_UARTEN),
        phase == InitPhase::DisableFifo ==> (r.1 matches UartOp::Write(_, w) && w & LCR_H_FEN == 0),
        phase == InitPhase::ConfigureLine ==> (r.1 matches UartOp::Write(_, w) && w & LCR_H_FEN
            == LCR_H_FEN && w & LCR_H_WLEN == LCR_H_WLEN && w & LCR_H_STP2 == 0),
        phase == InitPhase::EnableUart ==> (r.1 matches UartOp::Write(_, w) && w & CR_UARTEN
            == CR_UARTEN),
{
    proof {
        assert(value & !1u32 & 1 == 0 && (value & !1u32) | 1 == value | 1) by (bit_vector);
        assert(value & !16u32 & 16 == 0) by (bit_vector);
        assert(((value | 16u32 | 96) & !8u32) & 16 == 16 && ((value | 16u32 | 96) & !8u32) & 96
            == 96 && ((value | 16u32 | 96) & !8u32) & 8 == 0) by (bit_vector);
        assert((value | 1u32) & 1 == 1) by (bit_vector);
    }
    match phase {
        InitPhase::Start => (InitPhase::DisableUart, UartOp::Read(Reg::Cr)),
        InitPhase::DisableUart => {
            let mut reg = value;
            reg &= !CR_UARTEN;
            (InitPhase::WaitIdle, UartOp::Write(Reg::Cr, reg))
        },
        InitPhase::WaitIdle => (InitPhase::CheckIdle, UartOp::Read(Reg::Fr)),
        InitPhase::CheckIdle => {
            if value & FR_BUSY != 0 {
                (InitPhase::CheckIdle, UartOp::Read(Reg::Fr))
            } else {
                (InitPhase::DisableFifo, UartOp::Read(Reg::LcrH))
            }
        },
        InitPhase::DisableFifo => {
            let mut reg = value;
            reg &= !LCR_H_FEN;
            (InitPhase::SetIntegerDivisor, UartOp::Write(Reg::LcrH, reg))
        },
        InitPhase::SetIntegerDivisor => (InitPhase::SetFractionalDivisor, UartOp::Write(Reg::Ibrd, 3)),
        InitPhase::SetFractionalDivisor => (InitPhase::ReadLineControl, UartOp::Write(Reg::Fbrd, 16)),
        InitPhase::ReadLineControl => (InitPhase::ConfigureLine, UartOp::Read(Reg::LcrH)),
        InitPhase::ConfigureLine => {
            let mut reg = value;
            reg |= LCR_H_FEN;
            reg |= LCR_H_WLEN;
            reg &= !LCR_H_STP2;
            (InitPhase::ReadControl, UartOp::Write(Reg::LcrH, reg))
        },
        InitPhase::ReadControl => (InitPhase::EnableUart, UartOp::Read(Reg::Cr)),
        InitPhase::EnableUart => {
            let mut reg = value;
            reg |= CR_UARTEN;
            (InitPhase::Finished, UartOp::Write(Reg::Cr, reg))
        },
        InitPhase::Finished => (InitPhase::Finished, UartOp::Done),
    }
}

/// The transmit FIFO is full: `putchar` waits while this holds, then
/// writes the character to the data register and returns it.
pub fn tx_fifo_full(fr: u32) -> (r: bool)
    ensures
        r == (fr & FR_TXFF != 0),
{
    fr & FR_TXFF != 0
}

/// The receive FIFO is empty: `getchar` then fails without reading the
/// data register.
pub fn rx_fifo_empty(fr: u32) -> (r: bool)
    ensures
        r == (fr & FR_RXFE != 0),
{
    fr & FR_RXFE != 0
}

/// The character in a data register value: its low byte.
pub fn received_char(dr: u32) -> (r: u32)
    ensures
        r == dr & DR_DATA,
        r < 256,
{
    proof {
        assert(dr & 255u32 < 256) by (bit_vector);
    }
    dr & DR_DATA
}

/// While waiting for the UART to go idle, the step reads the flag register
/// again exactly when its BUSY bit (bit 3) is set, and otherwise goes on to
/// read the line control register; no other flag bit matters.
pub proof fn lemma_wait_idle_on_busy_bit(v: u32, w: u32)
    ensures
        v & 0x08 != 0 ==> init_next(InitPhase::CheckIdle, v) == (InitPhase::CheckIdle, UartOp::Read(Reg::Fr)),
        v & 0x08 == 0 ==> init_next(InitPhase::CheckIdle, v) == (
            InitPhase::DisableFifo,
            UartOp::Read(Reg::LcrH),
        ),
        v & 0x08 == w & 0x08 ==> init_next(InitPhase::CheckIdle, v) == init_next(InitPhase::CheckIdle, w),
{
}

} // verus!
