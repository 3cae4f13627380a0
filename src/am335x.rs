//! Drivers for the TI AM335x: clocks, pin multiplexing, UART and ADC.
use crate::bus::{modify, wait, write_word, Block, RegOp};
use crate::layout::{IndexError, RegWidth};
use vstd::prelude::*;

verus! {

pub const ADC_CTRL: usize = 0x40;
pub const ADC_STEP_ENABLE: usize = 0x54;
pub const ADC_STEP: usize = 0x64;
pub const ADC_STEP_STRIDE: usize = 8;
pub const ADC_FIFO: usize = 0xE4;
pub const ADC_FIFO_STRIDE: usize = 12;
pub const ADC_FIFO_DATA: usize = 0x100;

pub const UART_HR: usize = 0x0;
pub const UART_DLL: usize = 0x0;
pub const UART_LCR: usize = 0xC;
pub const UART_LSR: usize = 0x14;
pub const UART_MDR1: usize = 0x20;
pub const UART_SYSC: usize = 0x54;
pub const UART_SYSS: usize = 0x58;

pub const CONF_MOD_PIN: usize = 0x800;
pub const CONF_MOD_PIN_COUNT: usize = 123;
pub const WAKEUP_CLKCTRL: usize = 0xB0;
pub const WAKEUP_CLKCTRL_COUNT: usize = 7;
pub const GPIO_CLKCTRL_ADDRESS: usize = 0x44E0_00AC;
pub const GPIO_CLOCK_COUNT: usize = 3;

/// Stores a 32-bit `value` at `address`.
pub fn put32(address: usize, value: u32) -> (r: RegOp)
    ensures
        r == (RegOp::Store { address, value }),
{
    RegOp::Store { address, value }
}

/// Clocks of the wake-up domain.
#[allow(non_camel_case_types)]
#[derive(Clone, Copy, Debug, PartialEq, Eq, Structural)]
pub enum WakeUpClocks {
    M3,
    UART0,
    I2C0,
    ADC_TSC,
    SMARTREFFLEX0,
    TIMER1,
    SMARTREFLEX1,
    WDT1,
}

impl WakeUpClocks {
    pub open spec fn spec_index(self) -> usize {
        match self {
            WakeUpClocks::M3 => 0,
            WakeUpClocks::UART0 => 1,
            WakeUpClocks::I2C0 => 2,
            WakeUpClocks::ADC_TSC => 3,
            WakeUpClocks::SMARTREFFLEX0 => 4,
            WakeUpClocks::TIMER1 => 5,
            WakeUpClocks::SMARTREFLEX1 => 6,
            WakeUpClocks::WDT1 => 8,
        }
    }

    /// Index of the clock's control register.
    pub fn index(self) -> (r: usize)
        ensures
            r == self.spec_index(),
    {
        match self {
            WakeUpClocks::M3 => 0,
            WakeUpClocks::UART0 => 1,
            WakeUpClocks::I2C0 => 2,
            WakeUpClocks::ADC_TSC => 3,
            WakeUpClocks::SMARTREFFLEX0 => 4,
            WakeUpClocks::TIMER1 => 5,
            WakeUpClocks::SMARTREFLEX1 => 6,
            WakeUpClocks::WDT1 => 8,
        }
    }
}

/// Wake-up clock configuration.
#[derive(Clone, Copy, Debug, PartialEq, Eq, Structural)]
pub struct WakeUpClock {}

impl WakeUpClock {
    /// The register block of the wake-up clock domain.
    pub fn reg() -> (r: Block)
        ensures
            r == Block::ClockWakeUp,
    {
        Block::ClockWakeUp
    }

    /// Enables a clock: module mode 2 in its control register, one of
    /// seven; a clock whose index has no control register is an
    /// `IndexError`.
    pub fn enable(clock: WakeUpClocks) -> (r: Result<RegOp, IndexError>)
        ensures
            clock.spec_index() < WAKEUP_CLKCTRL_COUNT ==> r == Ok::<RegOp, IndexError>(
                modify(Block::ClockWakeUp, (WAKEUP_CLKCTRL + clock.spec_index() * 4) as usize, RegWidth::Reg32, 0, 2, 2),
            ),
            clock.spec_index() >= WAKEUP_CLKCTRL_COUNT ==> r == Err::<RegOp, IndexError>(
                IndexError { index: clock.spec_index(), count: WAKEUP_CLKCTRL_COUNT },
            ),
    {
        let offset = crate::layout::address(0, WAKEUP_CLKCTRL, 4, clock.index(), WAKEUP_CLKCTRL_COUNT)?;
        Ok(RegOp::Modify { block: WakeUpClock::reg(), offset, width: RegWidth::Reg32, shift: 0, bits: 2, value: 2 })
    }
}

/// The clock of a GPIO module of the peripheral domain.
#[derive(Clone, Copy, Debug, PartialEq, Eq, Structural)]
pub struct GPIOClock {
    pub id: usize,
}

impl GPIOClock {
    /// Enables the clock: `0x4002` stored at its control register, the
    /// four-byte word `id - 1` from the first. Only GPIO modules 1 to 3
    /// have one here (module 0 is in another domain); any other `id` is an
    /// `IndexError` and nothing is stored.
    pub fn enable(&self) -> (r: Result<RegOp, IndexError>)
        ensures
            1 <= self.id <= GPIO_CLOCK_COUNT ==> r == Ok::<RegOp, IndexError>(
                RegOp::Store { address: (GPIO_CLKCTRL_ADDRESS + (self.id - 1) * 4) as usize, value: 0x4002 },
            ),
            !(1 <= self.id <= GPIO_CLOCK_COUNT) ==> r == Err::<RegOp, IndexError>(
                IndexError { index: self.id, count: GPIO_CLOCK_COUNT },
            ),
    {
        if self.id == 0 || self.id > GPIO_CLOCK_COUNT {
            return Err(IndexError { index: self.id, count: GPIO_CLOCK_COUNT });
        }
        let address = GPIO_CLKCTRL_ADDRESS + ((self.id - 1) * 4);
        let value: u32 = 0x4002;
        Ok(put32(address, value))
    }
}

/// Access to the clocks of the peripheral domain.
#[derive(Clone, Copy, Debug, PartialEq, Eq, Structural)]
pub struct PeripheralClockDomain {}

impl PeripheralClockDomain {
    /// The clock of GPIO module `id`.
    pub fn gpio(id: usize) -> (r: GPIOClock)
        ensures
            r.id == id,
    {
        GPIOClock { id }
    }
}

/// Pins whose configuration the UART needs.
#[allow(non_camel_case_types)]
#[derive(Clone, Copy, Debug, PartialEq, Eq, Structural)]
pub enum ModulePin {
    UART_0_CTSN,
    UART_0_RTSN,
    UART_0_RXD,
    UART_0_TXD,
}

impl ModulePin {
    pub open spec fn spec_index(self) -> usize {
        match self {
            ModulePin::UART_0_CTSN => 90,
            ModulePin::UART_0_RTSN => 91,
            ModulePin::UART_0_RXD => 92,
            ModulePin::UART_0_TXD => 93,
        }
    }

    /// Index of the pin's configuration register.
    pub fn index(self) -> (r: usize)
        ensures
            r == self.spec_index(),
    {
        match self {
            ModulePin::UART_0_CTSN => 90,
            ModulePin::UART_0_RTSN => 91,
            ModulePin::UART_0_RXD => 92,
            ModulePin::UART_0_TXD => 93,
        }
    }
}

pub open spec fn bit(b: bool) -> u32 {
    if b {
        1
    } else {
        0
    }
}

/// The operations of a pin configuration.
pub open spec fn conf_pin_ops(pin: ModulePin, slow_slew: bool, receiver: bool, pullup: bool, pull: bool, mux: u8) -> Seq<RegOp> {
    let o = (CONF_MOD_PIN + pin.spec_index() * 4) as usize;
    seq![
        modify(Block::ControlModule, o, RegWidth::Reg32, 6, 1, bit(slow_slew)),
        modify(Block::ControlModule, o, RegWidth::Reg32, 5, 1, bit(receiver)),
        modify(Block::ControlModule, o, RegWidth::Reg32, 4, 1, bit(pullup)),
        modify(Block::ControlModule, o, RegWidth::Reg32, 3, 1, bit(pull)),
        modify(Block::ControlModule, o, RegWidth::Reg32, 0, 3, mux as u32),
    ]
}

fn bit_exec(b: bool) -> (r: u32)
    ensures
        r == bit(b),
{
    if b {
        1
    } else {
        0
    }
}

/// Configures a pin: slew rate, receiver, pull-up or pull-down, pull
/// enable, and its multiplexer setting (one of 8).
pub fn conf_pin(pin: ModulePin, slow_slew: bool, receiver: bool, pullup: bool, pull: bool, mux: u8) -> (r: Vec<RegOp>)
    requires
        mux <= 7,
    ensures
        r@ == conf_pin_ops(pin, slow_slew, receiver, pullup, pull, mux),
{
    let o = CONF_MOD_PIN + pin.index() * 4;
    let b = Block::ControlModule;
    let w = RegWidth::Reg32;
    let mut r: Vec<RegOp> = Vec::new();
    r.push(RegOp::Modify { block: b, offset: o, width: w, shift: 6, bits: 1, value: bit_exec(slow_slew) });
    r.push(RegOp::Modify { block: b, offset: o, width: w, shift: 5, bits: 1, value: bit_exec(receiver) });
    r.push(RegOp::Modify { block: b, offset: o, width: w, shift: 4, bits: 1, value: bit_exec(pullup) });
    r.push(RegOp::Modify { block: b, offset: o, width: w, shift: 3, bits: 1, value: bit_exec(pull) });
    r.push(RegOp::Modify { block: b, offset: o, width: w, shift: 0, bits: 3, value: mux as u32 });
    proof {
        assert(r@ =~= conf_pin_ops(pin, slow_slew, receiver, pullup, pull, mux));
    }
    r
}

#[derive(Clone, Copy, Debug, PartialEq, Eq, Structural)]
pub enum UARTModule {
    Module0,
}

/// A UART module.
#[derive(Clone, Copy, Debug, PartialEq, Eq, Structural)]
pub struct UART {
    pub module: UARTModule,
}

impl UART {
    /// The UART of `module`.
    pub fn new(module: UARTModule) -> (r: UART)
        ensures
            r.module == module,
    {
        UART { module }
    }

    pub open spec fn start_ops(self) -> Seq<RegOp> {
        let b = Block::Uart(self.module);
        let w = RegWidth::Reg16;
        conf_pin_ops(ModulePin::UART_0_RXD, false, true, true, false, 0) + conf_pin_ops(
            ModulePin::UART_0_TXD,
            false,
            false,
            true,
            false,
            0,
        ) + seq![
            modify(b, UART_SYSC, w, 1, 1, 1),
            wait(b, UART_SYSS, w, 0, 1),
            write_word(b, UART_SYSC, w, 0x8),
            write_word(b, UART_LCR, w, 0x83),
            modify(b, UART_DLL, w, 0, 8, 0x1A),
            write_word(b, UART_MDR1, w, 0x0),
            write_word(b, UART_LCR, w, 0x3),
            modify(b, UART_LCR, w, 7, 1, 0),
            modify(b, UART_LCR, w, 6, 1, 0),
            modify(b, UART_LCR, w, 0, 2, 3),
            modify(b, UART_LCR, w, 2, 1, 0),
        ]
    }

    /// Starts the module at 115.2 kbps, 8 data bits and one stop bit: its
    /// pins, a soft reset and the wait for it, no idle mode, the divisor
    /// in mode B, then mode A and the line settings.
    pub fn start(&self) -> (r: Vec<RegOp>)
        ensures
            r@ == self.start_ops(),
    {
        let b = Block::Uart(self.module);
        let w = RegWidth::Reg16;
        let mut r = conf_pin(ModulePin::UART_0_RXD, false, true, true, false, 0);
        let mut tx = conf_pin(ModulePin::UART_0_TXD, false, false, true, false, 0);
        r.append(&mut tx);
        let ghost pins = r@;
        r.push(RegOp::Modify { block: b, offset: UART_SYSC, width: w, shift: 1, bits: 1, value: 1 });
        r.push(RegOp::WaitNonZero { block: b, offset: UART_SYSS, width: w, shift: 0, bits: 1 });
        r.push(RegOp::Write { block: b, offset: UART_SYSC, width: w, value: 0x8 });
        r.push(RegOp::Write { block: b, offset: UART_LCR, width: w, value: 0x83 });
        r.push(RegOp::Modify { block: b, offset: UART_DLL, width: w, shift: 0, bits: 8, value: 0x1A });
        r.push(RegOp::Write { block: b, offset: UART_MDR1, width: w, value: 0x0 });
        r.push(RegOp::Write { block: b, offset: UART_LCR, width: w, value: 0x3 });
        r.push(RegOp::Modify { block: b, offset: UART_LCR, width: w, shift: 7, bits: 1, value: 0 });
        r.push(RegOp::Modify { block: b, offset: UART_LCR, width: w, shift: 6, bits: 1, value: 0 });
        r.push(RegOp::Modify { block: b, offset: UART_LCR, width: w, shift: 0, bits: 2, value: 3 });
        r.push(RegOp::Modify { block: b, offset: UART_LCR, width: w, shift: 2, bits: 1, value: 0 });
        proof {
            assert(r@ =~= self.start_ops());
        }
        r
    }

    /// Writes a byte to the transmit FIFO, after waiting until the
    /// transmitter is empty.
    pub fn write(&self, byte: u8) -> (r: Vec<RegOp>)
        ensures
            r@ == seq![
                wait(Block::Uart(self.module), UART_LSR, RegWidth::Reg16, 6, 1),
                write_word(Block::Uart(self.module), UART_HR, RegWidth::Reg16, byte as u32),
            ],
    {
        let mut r: Vec<RegOp> = Vec::new();
        r.push(RegOp::WaitNonZero { block: Block::Uart(self.module), offset: UART_LSR, width: RegWidth::Reg16, shift: 6, bits: 1 });
        r.push(RegOp::Write { block: Block::Uart(self.module), offset: UART_HR, width: RegWidth::Reg16, value: byte as u32 });
        proof {
            assert(r@ =~= seq![
                wait(Block::Uart(self.module), UART_LSR, RegWidth::Reg16, 6, 1),
                write_word(Block::Uart(self.module), UART_HR, RegWidth::Reg16, byte as u32),
            ]);
        }
        r
    }

    /// Writes a character: its low byte.
    pub fn putc(&self, value: char) -> (r: Vec<RegOp>)
        ensures
            r@ == seq![
                wait(Block::Uart(self.module), UART_LSR, RegWidth::Reg16, 6, 1),
                write_word(Block::Uart(self.module), UART_HR, RegWidth::Reg16, (value as u32) % 256),
            ],
    {
        let code = value as u32;
        let byte = (code % 256) as u8;
        self.write(byte)
    }
}

/// After the operations of `read_input(input)` that set step 0, applied
/// to a sample `ctrl` of its control register, and the one that enables
/// it, applied to a sample `enable` of the step-enable register: the input
/// select field holds the input's low four bits, the mode field is one-shot
/// software mode (0), step 0's enable bit (bit 1) is set, and every other
/// bit of both registers is unchanged.
pub proof fn lemma_read_input_effect(input: u8, ctrl: u32, enable: u32)
    ensures
        ({
            let c = crate::bus::modified(
                crate::bus::modified(ctrl, modify(Block::AdcTsc, ADC_STEP, RegWidth::Reg32, 19, 4, input as u32)),
                modify(Block::AdcTsc, ADC_STEP, RegWidth::Reg32, 0, 2, 0),
            );
            let e = crate::bus::modified(enable, modify(Block::AdcTsc, ADC_STEP_ENABLE, RegWidth::Reg32, 1, 1, 1));
            let kept = !(crate::runtime::field_bits(19, 4) | crate::runtime::field_bits(0, 2));
            &&& crate::runtime::extract(c, 19, 4) == (input as u32) & 0xf
            &&& crate::runtime::extract(c, 0, 2) == 0
            &&& c & kept == ctrl & kept
            &&& crate::runtime::extract(e, 1, 1) == 1
            &&& e & !crate::runtime::field_bits(1, 1) == enable & !crate::runtime::field_bits(1, 1)
        }),
{
    let x = input as u32;
    let c1 = crate::runtime::insert(ctrl, 19, 4, x);
    let c = crate::runtime::insert(c1, 0, 2, 0);
    assert(crate::runtime::extract(c, 19, 4) == x & 0xf && crate::runtime::extract(c, 0, 2) == 0
        && c & !(crate::runtime::field_bits(19, 4) | crate::runtime::field_bits(0, 2)) == ctrl & !(
    crate::runtime::field_bits(19, 4) | crate::runtime::field_bits(0, 2))) by (bit_vector)
        requires
            c1 == crate::runtime::insert(ctrl, 19, 4, x),
            c == crate::runtime::insert(c1, 0, 2, 0),
    ;
    assert(crate::layout::low_mask(1) == 1) by (bit_vector);
    crate::runtime::lemma_insert_extract(enable, 1, 1, 1, 32);
}

/// The analog-to-digital converter and touch-screen controller.
#[allow(non_camel_case_types)]
#[derive(Clone, Copy, Debug, PartialEq, Eq, Structural)]
pub struct ADC_TSC {}

impl ADC_TSC {
    /// The converter, after enabling its wake-up clock.
    pub fn new() -> (r: (ADC_TSC, Vec<RegOp>))
        ensures
            r.1@ == seq![modify(Block::ClockWakeUp, (WAKEUP_CLKCTRL + 3 * 4) as usize, RegWidth::Reg32, 0, 2, 2)],
    {
        let mut ops: Vec<RegOp> = Vec::new();
        match WakeUpClock::enable(WakeUpClocks::ADC_TSC) {
            Ok(op) => ops.push(op),
            Err(_) => {},
        }
        proof {
            assert(ops@ =~= seq![modify(Block::ClockWakeUp, (WAKEUP_CLKCTRL + 3 * 4) as usize, RegWidth::Reg32, 0, 2, 2)]);
        }
        (ADC_TSC {}, ops)
    }

    /// Starts a conversion of analog input `input`: step 0 selects the
    /// input in one-shot software mode, step 0 is enabled, the converter
    /// is enabled, and the first FIFO is waited on until it holds a word;
    /// the sample is then read from the first FIFO data register.
    pub fn read_input(&self, input: u8) -> (r: Vec<RegOp>)
        ensures
            r@ == seq![
                modify(Block::AdcTsc, ADC_STEP, RegWidth::Reg32, 19, 4, input as u32),
                modify(Block::AdcTsc, ADC_STEP, RegWidth::Reg32, 0, 2, 0),
                modify(Block::AdcTsc, ADC_STEP_ENABLE, RegWidth::Reg32, 1, 1, 1),
                modify(Block::AdcTsc, ADC_CTRL, RegWidth::Reg32, 0, 1, 1),
                wait(Block::AdcTsc, ADC_FIFO, RegWidth::Reg32, 0, 7),
            ],
    {
        let b = Block::AdcTsc;
        let w = RegWidth::Reg32;
        let step0 = ADC_STEP;
        let mut r: Vec<RegOp> = Vec::new();
        r.push(RegOp::Modify { block: b, offset: step0, width: w, shift: 19, bits: 4, value: input as u32 });
        r.push(RegOp::Modify { block: b, offset: step0, width: w, shift: 0, bits: 2, value: 0 });
        r.push(RegOp::Modify { block: b, offset: ADC_STEP_ENABLE, width: w, shift: 1, bits: 1, value: 1 });
        r.push(RegOp::Modify { block: b, offset: ADC_CTRL, width: w, shift: 0, bits: 1, value: 1 });
        r.push(RegOp::WaitNonZero { block: b, offset: ADC_FIFO, width: w, shift: 0, bits: 7 });
        proof {
            assert(r@ =~= seq![
                modify(Block::AdcTsc, ADC_STEP, RegWidth::Reg32, 19, 4, input as u32),
                modify(Block::AdcTsc, ADC_STEP, RegWidth::Reg32, 0, 2, 0),
                modify(Block::AdcTsc, ADC_STEP_ENABLE, RegWidth::Reg32, 1, 1, 1),
                modify(Block::AdcTsc, ADC_CTRL, RegWidth::Reg32, 0, 1, 1),
                wait(Block::AdcTsc, ADC_FIFO, RegWidth::Reg32, 0, 7),
            ]);
        }
        r
    }

    /// The converted value in a sample of a FIFO data register (bits 11..0).
    pub fn sample(word: u32) -> (r: u16)
        ensures
            r == crate::runtime::extract(word, 0, 12),
    {
        let v = crate::runtime::extract_field(word, 0, 12);
        proof {
            assert((word >> 0u32) & crate::layout::low_mask(12) <= 0xfff) by (bit_vector);
        }
        v as u16
    }
}

} // verus!
