//! Register operations: what a driver asks of the hardware, one volatile
//! access (or one poll) at a time, in order.
use crate::layout::RegWidth;
use crate::stm32f4::{I2CBus, Port};
use crate::am335x::UARTModule;
use vstd::prelude::*;

verus! {

/// A peripheral register block, addressed by the operations on it.
#[derive(Clone, Copy, Debug, PartialEq, Eq, Structural)]
pub enum Block {
    AdcTsc,
    ClockPer,
    ClockWakeUp,
    ControlModule,
    Uart(UARTModule),
    I2c(I2CBus),
    Gpio(Port),
}

/// A peripheral clock that must run before its peripheral is used.
#[derive(Clone, Copy, Debug, PartialEq, Eq, Structural)]
pub enum PeripheralClock {
    GPIOAClock,
    GPIOBClock,
    GPIOCClock,
    GPIODClock,
    GPIOEClock,
    GPIOFClock,
    GPIOGClock,
    GPIOHClock,
    GPIOIClock,
    I2C1Clock,
    I2C2Clock,
    I2C3Clock,
}

/// One access to the hardware.
#[derive(Clone, Copy, Debug, PartialEq, Eq, Structural)]
pub enum RegOp {
    /// Read the word at `offset`, replace the `bits`-wide field at `shift`
    /// with `value` (cut to the field), write the word back.
    Modify { block: Block, offset: usize, width: RegWidth, shift: u32, bits: u32, value: u32 },
    /// Write the field alone: the other bits of the word are zero.
    WriteField { block: Block, offset: usize, width: RegWidth, shift: u32, bits: u32, value: u32 },
    /// Write the whole word.
    Write { block: Block, offset: usize, width: RegWidth, value: u32 },
    /// Read the whole word, for the effect of the read.
    Read { block: Block, offset: usize, width: RegWidth },
    /// Read the word until the `bits`-wide field at `shift` is not zero.
    WaitNonZero { block: Block, offset: usize, width: RegWidth, shift: u32, bits: u32 },
    /// Store a 32-bit word at an absolute address.
    Store { address: usize, value: u32 },
    /// Turn a peripheral clock on.
    EnableClock { clock: PeripheralClock },
}

pub open spec fn modify(block: Block, offset: usize, width: RegWidth, shift: u32, bits: u32, value: u32) -> RegOp {
    RegOp::Modify { block, offset, width, shift, bits, value }
}

pub open spec fn wait(block: Block, offset: usize, width: RegWidth, shift: u32, bits: u32) -> RegOp {
    RegOp::WaitNonZero { block, offset, width, shift, bits }
}

pub open spec fn write_word(block: Block, offset: usize, width: RegWidth, value: u32) -> RegOp {
    RegOp::Write { block, offset, width, value }
}

/// The word after a `Modify` or a `WriteField` of a word that was `word`.
pub open spec fn modified(word: u32, op: RegOp) -> u32 {
    match op {
        RegOp::Modify { shift, bits, value, .. } => crate::runtime::insert(word, shift, bits, value),
        RegOp::WriteField { shift, bits, value, .. } => crate::runtime::insert(0, shift, bits, value),
        RegOp::Write { value, .. } => value,
        _ => word,
    }
}

/// The word a register holds after `op`, when it held `word` before.
pub fn apply(word: u32, op: RegOp) -> (r: u32)
    requires
        op matches RegOp::Modify { shift, bits, .. } ==> crate::runtime::field_in_word(shift, bits, 32),
        op matches RegOp::WriteField { shift, bits, .. } ==> crate::runtime::field_in_word(shift, bits, 32),
    ensures
        r == modified(word, op),
{
    match op {
        RegOp::Modify { shift, bits, value, .. } => crate::runtime::insert_field(word, shift, bits, value),
        RegOp::WriteField { shift, bits, value, .. } => crate::runtime::insert_field(0, shift, bits, value),
        RegOp::Write { value, .. } => value,
        _ => word,
    }
}

} // verus!
