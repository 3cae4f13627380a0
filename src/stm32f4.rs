//! Drivers for the ST STM32F4: GPIO pins and the I2C buses.
use crate::bus::{modify, wait, Block, PeripheralClock, RegOp};
use crate::layout::{IndexError, RegWidth};
use vstd::prelude::*;

verus! {

pub const I2C_CR1: usize = 0x0;
pub const I2C_CR2: usize = 0x4;
pub const I2C_OAR1: usize = 0x8;
pub const I2C_DR: usize = 0x10;
pub const I2C_SR1: usize = 0x14;
pub const I2C_SR2: usize = 0x18;
pub const I2C_CCR: usize = 0x1C;
pub const I2C_TRISE: usize = 0x20;

pub const GPIO_MODER: usize = 0x0;
pub const GPIO_OTYPER: usize = 0x04;
pub const GPIO_PUPDR: usize = 0x0c;
pub const GPIO_IDR: usize = 0x10;
pub const GPIO_ODR: usize = 0x14;
pub const GPIO_BSRR: usize = 0x18;
pub const GPIO_AFRL: usize = 0x20;
pub const GPIO_AFRH: usize = 0x24;

/// The APB clock the I2C timings are computed from, in Hz.
pub const PCLK1: u32 = 16_000_000;

/// Available port names.
#[derive(Clone, Copy, Debug, PartialEq, Eq, Structural)]
pub enum Port {
    PortA,
    PortB,
    PortC,
    PortD,
    PortE,
    PortF,
    PortG,
    PortH,
    PortI,
}

impl Port {
    pub open spec fn spec_clock(self) -> PeripheralClock {
        match self {
            Port::PortA => PeripheralClock::GPIOAClock,
            Port::PortB => PeripheralClock::GPIOBClock,
            Port::PortC => PeripheralClock::GPIOCClock,
            Port::PortD => PeripheralClock::GPIODClock,
            Port::PortE => PeripheralClock::GPIOEClock,
            Port::PortF => PeripheralClock::GPIOFClock,
            Port::PortG => PeripheralClock::GPIOGClock,
            Port::PortH => PeripheralClock::GPIOHClock,
            Port::PortI => PeripheralClock::GPIOIClock,
        }
    }

    /// The clock of the port's GPIO block.
    pub fn clock(self) -> (r: PeripheralClock)
        ensures
            r == self.spec_clock(),
    {
        match self {
            Port::PortA => PeripheralClock::GPIOAClock,
            Port::PortB => PeripheralClock::GPIOBClock,
            Port::PortC => PeripheralClock::GPIOCClock,
            Port::PortD => PeripheralClock::GPIODClock,
            Port::PortE => PeripheralClock::GPIOEClock,
            Port::PortF => PeripheralClock::GPIOFClock,
            Port::PortG => PeripheralClock::GPIOGClock,
            Port::PortH => PeripheralClock::GPIOHClock,
            Port::PortI => PeripheralClock::GPIOIClock,
        }
    }
}

/// Pin functions; the mode register encodes them as 0 to 3 in this order.
#[derive(Clone, Copy, Debug, PartialEq, Eq, Structural)]
pub enum Function {
    GPIOIn,
    GPIOOut,
    AltFunction,
    Analog,
}

/// Direction of a GPIO pin.
#[derive(Clone, Copy, Debug, PartialEq, Eq, Structural)]
pub enum GpioDirection {
    In,
    Out,
}

/// Level of a GPIO input.
#[derive(Clone, Copy, Debug, PartialEq, Eq, Structural)]
pub enum GpioLevel {
    Low,
    High,
}

/// Pin configuration.
#[derive(Clone, Copy, Debug, PartialEq, Eq, Structural)]
pub struct Pin {
    pub port: Port,
    pub pin: u8,
    pub function: Function,
}

impl Pin {
    /// The pin exists: a port has sixteen.
    pub open spec fn wf(self) -> bool {
        self.pin < 16
    }

    /// Setup of a GPIO pin: the port's clock, then the pin's mode
    /// (input 0, output 1).
    pub fn setup(&self) -> (r: Vec<RegOp>)
        requires
            self.wf(),
            self.function is GPIOIn || self.function is GPIOOut,
        ensures
            r@ == seq![
                RegOp::EnableClock { clock: self.port.spec_clock() },
                modify(Block::Gpio(self.port), GPIO_MODER, RegWidth::Reg32, (self.pin * 2) as u32, 2,
                    if self.function is GPIOOut { 1 } else { 0 }),
            ],
    {
        let mode: u32 = match self.function {
            Function::GPIOOut => 1,
            _ => 0,
        };
        let mut r: Vec<RegOp> = Vec::new();
        r.push(RegOp::EnableClock { clock: self.port.clock() });
        r.push(RegOp::Modify { block: Block::Gpio(self.port), offset: GPIO_MODER, width: RegWidth::Reg32, shift: self.pin as u32 * 2, bits: 2, value: mode });
        proof {
            assert(r@ =~= seq![
                RegOp::EnableClock { clock: self.port.spec_clock() },
                modify(Block::Gpio(self.port), GPIO_MODER, RegWidth::Reg32, (self.pin * 2) as u32, 2,
                    if self.function is GPIOOut { 1 } else { 0 }),
            ]);
        }
        r
    }

    /// The register block of the pin's port.
    pub fn get_reg(&self) -> (r: Block)
        ensures
            r == Block::Gpio(self.port),
    {
        Block::Gpio(self.port)
    }

    /// Toggles the output: the pin's output bit becomes the opposite of
    /// its bit in `odr`, a sample of the output data register. A pin
    /// number past the port's sixteen is an `IndexError`.
    pub fn toggle(&self, odr: u32) -> (r: Result<RegOp, IndexError>)
        ensures
            self.wf() ==> r == Ok::<RegOp, IndexError>(modify(Block::Gpio(self.port), GPIO_ODR, RegWidth::Reg32, self.pin as u32, 1,
                if crate::runtime::extract(odr, self.pin as u32, 1) == 0 { 1 } else { 0 })),
            !self.wf() ==> r == Err::<RegOp, IndexError>(self.pin_error()),
    {
        if self.pin >= 16 {
            return Err(IndexError { index: self.pin as usize, count: 16 });
        }
        let bit = crate::runtime::extract_field(odr, self.pin as u32, 1);
        Ok(RegOp::Modify {
            block: Block::Gpio(self.port),
            offset: GPIO_ODR,
            width: RegWidth::Reg32,
            shift: self.pin as u32,
            bits: 1,
            value: if bit == 0 { 1 } else { 0 },
        })
    }

    /// The error for a pin number past the port's sixteen.
    pub open spec fn pin_error(self) -> IndexError {
        IndexError { index: self.pin as usize, count: 16 }
    }

    /// Sets the output high: a write of the pin's set bit; a pin number
    /// past the port's sixteen is an `IndexError`.
    pub fn set_high(&self) -> (r: Result<RegOp, IndexError>)
        ensures
            self.wf() ==> r == Ok::<RegOp, IndexError>(RegOp::WriteField { block: Block::Gpio(self.port), offset: GPIO_BSRR, width: RegWidth::Reg32, shift: self.pin as u32, bits: 1, value: 1 }),
            !self.wf() ==> r == Err::<RegOp, IndexError>(self.pin_error()),
    {
        if self.pin >= 16 {
            return Err(IndexError { index: self.pin as usize, count: 16 });
        }
        Ok(RegOp::WriteField { block: Block::Gpio(self.port), offset: GPIO_BSRR, width: RegWidth::Reg32, shift: self.pin as u32, bits: 1, value: 1 })
    }

    /// Sets the output low: a write of the pin's reset bit; a pin number
    /// past the port's sixteen is an `IndexError`.
    pub fn set_low(&self) -> (r: Result<RegOp, IndexError>)
        ensures
            self.wf() ==> r == Ok::<RegOp, IndexError>(RegOp::WriteField { block: Block::Gpio(self.port), offset: GPIO_BSRR, width: RegWidth::Reg32, shift: (16 + self.pin) as u32, bits: 1, value: 1 }),
            !self.wf() ==> r == Err::<RegOp, IndexError>(self.pin_error()),
    {
        if self.pin >= 16 {
            return Err(IndexError { index: self.pin as usize, count: 16 });
        }
        Ok(RegOp::WriteField { block: Block::Gpio(self.port), offset: GPIO_BSRR, width: RegWidth::Reg32, shift: 16 + self.pin as u32, bits: 1, value: 1 })
    }

    /// The input level, from `idr`, a sample of the input data register;
    /// a pin number past the port's sixteen is an `IndexError`.
    pub fn level(&self, idr: u32) -> (r: Result<GpioLevel, IndexError>)
        ensures
            self.wf() ==> r == Ok::<GpioLevel, IndexError>(if crate::runtime::extract(idr, self.pin as u32, 1) == 0 { GpioLevel::Low } else { GpioLevel::High }),
            !self.wf() ==> r == Err::<GpioLevel, IndexError>(self.pin_error()),
    {
        if self.pin >= 16 {
            return Err(IndexError { index: self.pin as usize, count: 16 });
        }
        if crate::runtime::extract_field(idr, self.pin as u32, 1) == 0 {
            Ok(GpioLevel::Low)
        } else {
            Ok(GpioLevel::High)
        }
    }

    /// Sets the pin's mode to input or output; a pin number past the
    /// port's sixteen is an `IndexError`.
    pub fn set_direction(&self, new_mode: GpioDirection) -> (r: Result<RegOp, IndexError>)
        ensures
            self.wf() ==> r == Ok::<RegOp, IndexError>(modify(Block::Gpio(self.port), GPIO_MODER, RegWidth::Reg32, (self.pin * 2) as u32, 2,
                if new_mode is Out { 1 } else { 0 })),
            !self.wf() ==> r == Err::<RegOp, IndexError>(self.pin_error()),
    {
        if self.pin >= 16 {
            return Err(IndexError { index: self.pin as usize, count: 16 });
        }
        Ok(RegOp::Modify {
            block: Block::Gpio(self.port),
            offset: GPIO_MODER,
            width: RegWidth::Reg32,
            shift: self.pin as u32 * 2,
            bits: 2,
            value: match new_mode {
                GpioDirection::Out => 1,
                GpioDirection::In => 0,
            },
        })
    }
}

/// A pin given to a peripheral through one of its alternate functions.
#[derive(Clone, Copy, Debug, PartialEq, Eq, Structural)]
pub struct AlternateFunctionPin {
    pub pin: Pin,
    pub alternate_function: u16,
}

impl AlternateFunctionPin {
    /// A pin of `port` in alternate-function mode with function `alt_func`.
    pub fn new(pin: u8, port: Port, alt_func: u16) -> (r: AlternateFunctionPin)
        ensures
            r == (AlternateFunctionPin { pin: Pin { port, pin, function: Function::AltFunction }, alternate_function: alt_func }),
    {
        AlternateFunctionPin { pin: Pin { pin, port, function: Function::AltFunction }, alternate_function: alt_func }
    }

    /// The alternate-function register that holds the pin's function,
    /// the four-bit field's shift in it, and the function.
    pub open spec fn af_op(self) -> RegOp {
        if self.pin.pin > 7 {
            modify(Block::Gpio(self.pin.port), GPIO_AFRH, RegWidth::Reg32, ((self.pin.pin - 8) * 4) as u32, 4, self.alternate_function as u32)
        } else {
            modify(Block::Gpio(self.pin.port), GPIO_AFRL, RegWidth::Reg32, (self.pin.pin * 4) as u32, 4, self.alternate_function as u32)
        }
    }

    pub open spec fn setup_ops(self) -> Seq<RegOp> {
        seq![
            RegOp::EnableClock { clock: self.pin.port.spec_clock() },
            modify(Block::Gpio(self.pin.port), GPIO_MODER, RegWidth::Reg32, (self.pin.pin * 2) as u32, 2, 2),
            self.af_op(),
        ]
    }

    pub open spec fn five_volt_ops(self) -> Seq<RegOp> {
        seq![
            modify(Block::Gpio(self.pin.port), GPIO_OTYPER, RegWidth::Reg32, self.pin.pin as u32, 1, 1),
            modify(Block::Gpio(self.pin.port), GPIO_PUPDR, RegWidth::Reg32, (self.pin.pin * 2) as u32, 2, 0),
        ]
    }

    /// Setup: the port's clock, the pin's mode (alternate, 2), and its
    /// function in the low or high alternate-function register.
    pub fn setup(&self) -> (r: Vec<RegOp>)
        requires
            self.pin.wf(),
            self.pin.function is AltFunction,
        ensures
            r@ == self.setup_ops(),
    {
        let offset = self.pin.pin as u32;
        let mut r: Vec<RegOp> = Vec::new();
        r.push(RegOp::EnableClock { clock: self.pin.port.clock() });
        r.push(RegOp::Modify { block: Block::Gpio(self.pin.port), offset: GPIO_MODER, width: RegWidth::Reg32, shift: offset * 2, bits: 2, value: 2 });
        if offset > 7 {
            r.push(RegOp::Modify { block: Block::Gpio(self.pin.port), offset: GPIO_AFRH, width: RegWidth::Reg32, shift: (offset - 8) * 4, bits: 4, value: self.alternate_function as u32 });
        } else {
            r.push(RegOp::Modify { block: Block::Gpio(self.pin.port), offset: GPIO_AFRL, width: RegWidth::Reg32, shift: offset * 4, bits: 4, value: self.alternate_function as u32 });
        }
        proof {
            assert(r@ =~= seq![
                RegOp::EnableClock { clock: self.pin.port.spec_clock() },
                modify(Block::Gpio(self.pin.port), GPIO_MODER, RegWidth::Reg32, (self.pin.pin * 2) as u32, 2, 2),
                self.af_op(),
            ]);
        }
        r
    }

    /// Configures the pin for 5 V operation: open drain, no pull.
    pub fn five_volt(&self) -> (r: Vec<RegOp>)
        requires
            self.pin.wf(),
            self.pin.function is AltFunction,
        ensures
            r@ == self.five_volt_ops(),
    {
        let offset = self.pin.pin as u32;
        let mut r: Vec<RegOp> = Vec::new();
        r.push(RegOp::Modify { block: Block::Gpio(self.pin.port), offset: GPIO_OTYPER, width: RegWidth::Reg32, shift: offset, bits: 1, value: 1 });
        r.push(RegOp::Modify { block: Block::Gpio(self.pin.port), offset: GPIO_PUPDR, width: RegWidth::Reg32, shift: offset * 2, bits: 2, value: 0 });
        proof {
            assert(r@ =~= seq![
                modify(Block::Gpio(self.pin.port), GPIO_OTYPER, RegWidth::Reg32, self.pin.pin as u32, 1, 1),
                modify(Block::Gpio(self.pin.port), GPIO_PUPDR, RegWidth::Reg32, (self.pin.pin * 2) as u32, 2, 0),
            ]);
        }
        r
    }
}

/// After `five_volt` on a pin, applied to samples `otyper` and `pupdr` of
/// its port's registers: the pin's output type is open drain (its bit is
/// 1), its pull setting is none (its two bits are 0), and every other bit
/// of both registers is unchanged.
pub proof fn lemma_five_volt_effect(p: AlternateFunctionPin, otyper: u32, pupdr: u32)
    requires
        p.pin.wf(),
    ensures
        ({
            let o = crate::bus::modified(otyper, p.five_volt_ops()[0]);
            let u = crate::bus::modified(pupdr, p.five_volt_ops()[1]);
            let n = p.pin.pin as u32;
            &&& crate::runtime::extract(o, n, 1) == 1
            &&& o & !crate::runtime::field_bits(n, 1) == otyper & !crate::runtime::field_bits(n, 1)
            &&& crate::runtime::extract(u, (2 * n) as u32, 2) == 0
            &&& u & !crate::runtime::field_bits((2 * n) as u32, 2) == pupdr & !crate::runtime::field_bits((2 * n) as u32, 2)
        }),
{
    let n = p.pin.pin as u32;
    assert(crate::layout::low_mask(1) == 1 && crate::layout::low_mask(2) == 3) by (bit_vector);
    crate::runtime::lemma_insert_extract(otyper, n, 1, 1, 32);
    crate::runtime::lemma_insert_extract(pupdr, (2 * n) as u32, 2, 0, 32);
}

#[derive(Clone, Copy, Debug, PartialEq, Eq, Structural)]
pub enum I2CBus {
    I2C1,
    I2C2,
    I2C3,
}

impl I2CBus {
    pub open spec fn spec_clock(self) -> PeripheralClock {
        match self {
            I2CBus::I2C1 => PeripheralClock::I2C1Clock,
            I2CBus::I2C2 => PeripheralClock::I2C2Clock,
            I2CBus::I2C3 => PeripheralClock::I2C3Clock,
        }
    }

    /// The clock of the bus's controller.
    pub fn clock(self) -> (r: PeripheralClock)
        ensures
            r == self.spec_clock(),
    {
        match self {
            I2CBus::I2C1 => PeripheralClock::I2C1Clock,
            I2CBus::I2C2 => PeripheralClock::I2C2Clock,
            I2CBus::I2C3 => PeripheralClock::I2C3Clock,
        }
    }
}

/// What the receive loop does after looking at a status sample.
#[derive(Clone, Copy, Debug, PartialEq, Eq, Structural)]
pub enum ReadOutcome {
    /// A byte has arrived: read it from the data register.
    Data,
    /// The master stopped: the read yields 0.
    Zero,
    /// Nothing yet: sample the status again.
    Again,
}

/// The register operations one round of the receive loop performs, and
/// how the round ends.
#[derive(Clone, Debug)]
pub struct ReadStep {
    pub ops: Vec<RegOp>,
    pub outcome: ReadOutcome,
}

/// Bus configuration.
#[derive(Clone, Copy, Debug, PartialEq, Eq, Structural)]
pub struct I2C {
    pub bus: I2CBus,
}

/// Bit `k` of a status word is set.
pub open spec fn flag(word: u32, k: u32) -> bool {
    crate::runtime::extract(word, k, 1) != 0
}

fn flag_exec(word: u32, k: u32) -> (r: bool)
    requires
        k < 32,
    ensures
        r == flag(word, k),
{
    crate::runtime::extract_field(word, k, 1) != 0
}

/// The clock-control value of standard mode for a bus clock of `clock` Hz:
/// `PCLK1 / (2 * clock)`, and at least 4.
pub open spec fn ccr_value(clock: u32) -> u32 {
    if PCLK1 as int / (2 * clock as int) < 4 {
        4
    } else {
        (PCLK1 as int / (2 * clock as int)) as u32
    }
}

impl I2C {
    /// The bus's controller, after turning its clock on.
    pub fn new(bus: I2CBus) -> (r: (I2C, Vec<RegOp>))
        ensures
            r.0.bus == bus,
            r.1@ == seq![RegOp::EnableClock { clock: bus.spec_clock() }],
    {
        let mut ops: Vec<RegOp> = Vec::new();
        ops.push(RegOp::EnableClock { clock: bus.clock() });
        proof {
            assert(ops@ =~= seq![RegOp::EnableClock { clock: bus.spec_clock() }]);
        }
        (I2C { bus }, ops)
    }

    /// A pin of `port` set up for the bus (alternate function 4, 5 V).
    pub fn conf_pin(&self, pin: u8, port: Port) -> (r: (AlternateFunctionPin, Vec<RegOp>))
        requires
            pin < 16,
        ensures
            r.0 == (AlternateFunctionPin { pin: Pin { port, pin, function: Function::AltFunction }, alternate_function: 4 }),
            r.1@ == r.0.setup_ops() + r.0.five_volt_ops(),
    {
        let i2c_pin = AlternateFunctionPin::new(pin, port, 4);
        let mut ops = i2c_pin.setup();
        let mut more = i2c_pin.five_volt();
        ops.append(&mut more);
        (i2c_pin, ops)
    }

    /// Setup for a bus clock of `clock` Hz: the peripheral clock frequency
    /// in MHz; in standard mode (up to 100 kHz) the rise time and the clock
    /// control; then enabling the controller and waiting until it is.
    pub fn setup(&self, clock: u32) -> (r: Vec<RegOp>)
        requires
            clock > 0,
        ensures
            r@ == if clock <= 100_000 {
                seq![
                    modify(Block::I2c(self.bus), I2C_CR2, RegWidth::Reg32, 0, 6, 16),
                    modify(Block::I2c(self.bus), I2C_TRISE, RegWidth::Reg32, 0, 6, 17),
                    modify(Block::I2c(self.bus), I2C_CCR, RegWidth::Reg32, 0, 12, ccr_value(clock)),
                    modify(Block::I2c(self.bus), I2C_CR1, RegWidth::Reg32, 0, 1, 1),
                    wait(Block::I2c(self.bus), I2C_CR1, RegWidth::Reg32, 0, 1),
                ]
            } else {
                seq![
                    modify(Block::I2c(self.bus), I2C_CR2, RegWidth::Reg32, 0, 6, 16),
                    modify(Block::I2c(self.bus), I2C_CR1, RegWidth::Reg32, 0, 1, 1),
                    wait(Block::I2c(self.bus), I2C_CR1, RegWidth::Reg32, 0, 1),
                ]
            },
    {
        let b = Block::I2c(self.bus);
        let freqrange: u32 = PCLK1 / 1_000_000;
        let mut r: Vec<RegOp> = Vec::new();
        r.push(RegOp::Modify { block: b, offset: I2C_CR2, width: RegWidth::Reg32, shift: 0, bits: 6, value: freqrange });
        if clock <= 100_000 {
            proof {
                assert(clock << 1 == 2 * clock) by (bit_vector)
                    requires
                        clock <= 100_000u32,
                ;
            }
            let mut res = PCLK1 / (clock << 1);
            if res < 0x04 {
                res = 0x04;
            }
            r.push(RegOp::Modify { block: b, offset: I2C_TRISE, width: RegWidth::Reg32, shift: 0, bits: 6, value: freqrange + 1 });
            r.push(RegOp::Modify { block: b, offset: I2C_CCR, width: RegWidth::Reg32, shift: 0, bits: 12, value: res });
        }
        r.push(RegOp::Modify { block: b, offset: I2C_CR1, width: RegWidth::Reg32, shift: 0, bits: 1, value: 1 });
        r.push(RegOp::WaitNonZero { block: b, offset: I2C_CR1, width: RegWidth::Reg32, shift: 0, bits: 1 });
        proof {
            if clock <= 100_000 {
                assert(r@ =~= seq![
                    modify(Block::I2c(self.bus), I2C_CR2, RegWidth::Reg32, 0, 6, 16),
                    modify(Block::I2c(self.bus), I2C_TRISE, RegWidth::Reg32, 0, 6, 17),
                    modify(Block::I2c(self.bus), I2C_CCR, RegWidth::Reg32, 0, 12, ccr_value(clock)),
                    modify(Block::I2c(self.bus), I2C_CR1, RegWidth::Reg32, 0, 1, 1),
                    wait(Block::I2c(self.bus), I2C_CR1, RegWidth::Reg32, 0, 1),
                ]);
            } else {
                assert(r@ =~= seq![
                    modify(Block::I2c(self.bus), I2C_CR2, RegWidth::Reg32, 0, 6, 16),
                    modify(Block::I2c(self.bus), I2C_CR1, RegWidth::Reg32, 0, 1, 1),
                    wait(Block::I2c(self.bus), I2C_CR1, RegWidth::Reg32, 0, 1),
                ]);
            }
        }
        r
    }

    /// Own address `addr` as a slave, with acknowledgement on.
    pub fn slave(&self, addr: u8) -> (r: Vec<RegOp>)
        ensures
            r@ == seq![
                modify(Block::I2c(self.bus), I2C_OAR1, RegWidth::Reg32, 1, 7, addr as u32),
                modify(Block::I2c(self.bus), I2C_OAR1, RegWidth::Reg32, 14, 1, 1),
                modify(Block::I2c(self.bus), I2C_CR1, RegWidth::Reg32, 10, 1, 1),
            ],
    {
        let b = Block::I2c(self.bus);
        let mut r: Vec<RegOp> = Vec::new();
        r.push(RegOp::Modify { block: b, offset: I2C_OAR1, width: RegWidth::Reg32, shift: 1, bits: 7, value: addr as u32 });
        r.push(RegOp::Modify { block: b, offset: I2C_OAR1, width: RegWidth::Reg32, shift: 14, bits: 1, value: 1 });
        r.push(RegOp::Modify { block: b, offset: I2C_CR1, width: RegWidth::Reg32, shift: 10, bits: 1, value: 1 });
        proof {
            assert(r@ =~= seq![
                modify(Block::I2c(self.bus), I2C_OAR1, RegWidth::Reg32, 1, 7, addr as u32),
                modify(Block::I2c(self.bus), I2C_OAR1, RegWidth::Reg32, 14, 1, 1),
                modify(Block::I2c(self.bus), I2C_CR1, RegWidth::Reg32, 10, 1, 1),
            ]);
        }
        r
    }

    /// The operations of one round of the receive loop, for a sample `sr1`
    /// of the first status register.
    pub open spec fn read_ops(self, sr1: u32) -> Seq<RegOp> {
        let b = Block::I2c(self.bus);
        if flag(sr1, 2) || flag(sr1, 6) {
            seq![]
        } else {
            (if flag(sr1, 1) {
                seq![
                    RegOp::Read { block: b, offset: I2C_SR1, width: RegWidth::Reg32 },
                    RegOp::Read { block: b, offset: I2C_SR2, width: RegWidth::Reg32 },
                ]
            } else {
                seq![]
            }) + if flag(sr1, 4) {
                seq![
                    RegOp::Read { block: b, offset: I2C_SR1, width: RegWidth::Reg32 },
                    modify(b, I2C_CR1, RegWidth::Reg32, 0, 1, 1),
                ]
            } else if flag(sr1, 8) {
                seq![modify(b, I2C_SR1, RegWidth::Reg32, 8, 1, 0)]
            } else {
                seq![]
            }
        }
    }

    /// One round of the receive loop: a byte that has arrived (transfer
    /// finished, bit 2, or data register not empty, bit 6) is read; an
    /// address match (bit 1) is cleared by reading both status registers;
    /// a stop (bit 4) is cleared, the controller enabled again, and the read
    /// yields 0; a bus error (bit 8) is cleared and the loop goes on.
    pub fn read(&self, sr1: u32) -> (r: ReadStep)
        ensures
            r.ops@ == self.read_ops(sr1),
            r.outcome == (if flag(sr1, 2) || flag(sr1, 6) {
                ReadOutcome::Data
            } else if flag(sr1, 4) {
                ReadOutcome::Zero
            } else {
                ReadOutcome::Again
            }),
    {
        let b = Block::I2c(self.bus);
        let mut ops: Vec<RegOp> = Vec::new();
        if flag_exec(sr1, 2) || flag_exec(sr1, 6) {
            proof {
                assert(ops@ =~= self.read_ops(sr1));
            }
            return ReadStep { ops, outcome: ReadOutcome::Data };
        }
        if flag_exec(sr1, 1) {
            ops.push(RegOp::Read { block: b, offset: I2C_SR1, width: RegWidth::Reg32 });
            ops.push(RegOp::Read { block: b, offset: I2C_SR2, width: RegWidth::Reg32 });
        }
        let ghost first = ops@;
        let outcome = if flag_exec(sr1, 4) {
            ops.push(RegOp::Read { block: b, offset: I2C_SR1, width: RegWidth::Reg32 });
            ops.push(RegOp::Modify { block: b, offset: I2C_CR1, width: RegWidth::Reg32, shift: 0, bits: 1, value: 1 });
            ReadOutcome::Zero
        } else {
            if flag_exec(sr1, 8) {
                ops.push(RegOp::Modify { block: b, offset: I2C_SR1, width: RegWidth::Reg32, shift: 8, bits: 1, value: 0 });
            }
            ReadOutcome::Again
        };
        proof {
            assert(ops@ =~= self.read_ops(sr1));
        }
        ReadStep { ops, outcome }
    }

    /// The byte in a sample of the data register.
    pub fn data_byte(dr: u32) -> (r: u8)
        ensures
            r == crate::runtime::extract(dr, 0, 8),
    {
        let v = crate::runtime::extract_field(dr, 0, 8);
        proof {
            assert((dr >> 0u32) & crate::layout::low_mask(8) <= 0xff) by (bit_vector);
        }
        v as u8
    }

    /// Becomes master of the bus: standard mode, a start condition, then
    /// waiting for the start bit and for master mode.
    pub fn start(&self) -> (r: Vec<RegOp>)
        ensures
            r@ == seq![
                modify(Block::I2c(self.bus), I2C_CCR, RegWidth::Reg32, 15, 1, 0),
                modify(Block::I2c(self.bus), I2C_CR1, RegWidth::Reg32, 8, 1, 1),
                wait(Block::I2c(self.bus), I2C_SR1, RegWidth::Reg32, 0, 1),
                wait(Block::I2c(self.bus), I2C_SR2, RegWidth::Reg32, 0, 1),
            ],
    {
        let b = Block::I2c(self.bus);
        let mut r: Vec<RegOp> = Vec::new();
        r.push(RegOp::Modify { block: b, offset: I2C_CCR, width: RegWidth::Reg32, shift: 15, bits: 1, value: 0 });
        r.push(RegOp::Modify { block: b, offset: I2C_CR1, width: RegWidth::Reg32, shift: 8, bits: 1, value: 1 });
        r.push(RegOp::WaitNonZero { block: b, offset: I2C_SR1, width: RegWidth::Reg32, shift: 0, bits: 1 });
        r.push(RegOp::WaitNonZero { block: b, offset: I2C_SR2, width: RegWidth::Reg32, shift: 0, bits: 1 });
        proof {
            assert(r@ =~= seq![
                modify(Block::I2c(self.bus), I2C_CCR, RegWidth::Reg32, 15, 1, 0),
                modify(Block::I2c(self.bus), I2C_CR1, RegWidth::Reg32, 8, 1, 1),
                wait(Block::I2c(self.bus), I2C_SR1, RegWidth::Reg32, 0, 1),
                wait(Block::I2c(self.bus), I2C_SR2, RegWidth::Reg32, 0, 1),
            ]);
        }
        r
    }

    /// Writes `value` to the slave at `addr`: the address shifted left by
    /// one (in a byte), the wait for the address to be sent and the data
    /// register to empty, the value, the wait again, and a stop.
    pub fn write(&self, addr: u8, value: u8) -> (r: Vec<RegOp>)
        ensures
            r@ == seq![
                modify(Block::I2c(self.bus), I2C_DR, RegWidth::Reg32, 0, 8, ((addr as u32 * 2) % 256) as u32),
                wait(Block::I2c(self.bus), I2C_SR1, RegWidth::Reg32, 1, 1),
                wait(Block::I2c(self.bus), I2C_SR1, RegWidth::Reg32, 7, 1),
                modify(Block::I2c(self.bus), I2C_DR, RegWidth::Reg32, 0, 8, value as u32),
                wait(Block::I2c(self.bus), I2C_SR1, RegWidth::Reg32, 7, 1),
                modify(Block::I2c(self.bus), I2C_CR1, RegWidth::Reg32, 9, 1, 1),
            ],
    {
        let b = Block::I2c(self.bus);
        let write_addr: u8 = addr << 1u8;
        proof {
            assert(addr << 1u8 == ((addr as u32 * 2) % 256) as u8) by (bit_vector);
        }
        let mut r: Vec<RegOp> = Vec::new();
        r.push(RegOp::Modify { block: b, offset: I2C_DR, width: RegWidth::Reg32, shift: 0, bits: 8, value: write_addr as u32 });
        r.push(RegOp::WaitNonZero { block: b, offset: I2C_SR1, width: RegWidth::Reg32, shift: 1, bits: 1 });
        r.push(RegOp::WaitNonZero { block: b, offset: I2C_SR1, width: RegWidth::Reg32, shift: 7, bits: 1 });
        r.push(RegOp::Modify { block: b, offset: I2C_DR, width: RegWidth::Reg32, shift: 0, bits: 8, value: value as u32 });
        r.push(RegOp::WaitNonZero { block: b, offset: I2C_SR1, width: RegWidth::Reg32, shift: 7, bits: 1 });
        r.push(RegOp::Modify { block: b, offset: I2C_CR1, width: RegWidth::Reg32, shift: 9, bits: 1, value: 1 });
        proof {
            assert(r@ =~= seq![
                modify(Block::I2c(self.bus), I2C_DR, RegWidth::Reg32, 0, 8, ((addr as u32 * 2) % 256) as u32),
                wait(Block::I2c(self.bus), I2C_SR1, RegWidth::Reg32, 1, 1),
                wait(Block::I2c(self.bus), I2C_SR1, RegWidth::Reg32, 7, 1),
                modify(Block::I2c(self.bus), I2C_DR, RegWidth::Reg32, 0, 8, value as u32),
                wait(Block::I2c(self.bus), I2C_SR1, RegWidth::Reg32, 7, 1),
                modify(Block::I2c(self.bus), I2C_CR1, RegWidth::Reg32, 9, 1, 1),
            ]);
        }
        r
    }
}

} // verus!
