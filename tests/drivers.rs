use ioreg::am335x::{conf_pin, put32, ModulePin, PeripheralClockDomain, UARTModule, WakeUpClock, WakeUpClocks, ADC_TSC, UART};
use ioreg::bus::{apply, Block, PeripheralClock, RegOp};
use ioreg::layout::{IndexError, RegWidth};
use ioreg::stm32f4::{AlternateFunctionPin, Function, GpioDirection, GpioLevel, I2CBus, Pin, Port, ReadOutcome, I2C};

fn modify(block: Block, offset: usize, shift: u32, bits: u32, value: u32) -> RegOp {
    RegOp::Modify { block, offset, width: RegWidth::Reg32, shift, bits, value }
}

#[test]
fn i2c_new_enables_its_clock() {
    let (i2c, ops) = I2C::new(I2CBus::I2C2);
    assert_eq!(i2c.bus, I2CBus::I2C2);
    assert_eq!(ops, vec![RegOp::EnableClock { clock: PeripheralClock::I2C2Clock }]);
}

#[test]
fn i2c_standard_mode_setup() {
    let (i2c, _) = I2C::new(I2CBus::I2C1);
    let b = Block::I2c(I2CBus::I2C1);
    let ops = i2c.setup(100_000);
    assert_eq!(
        ops,
        vec![
            modify(b, 0x4, 0, 6, 16),
            modify(b, 0x20, 0, 6, 17),
            modify(b, 0x1C, 0, 12, 80),
            modify(b, 0x0, 0, 1, 1),
            RegOp::WaitNonZero { block: b, offset: 0x0, width: RegWidth::Reg32, shift: 0, bits: 1 },
        ]
    );
    assert_eq!(i2c.setup(1_000_000).len(), 3);
    assert_eq!(i2c.setup(3_000_000)[0], modify(b, 0x4, 0, 6, 16));
    // a very slow clock: 16 MHz / 2 Hz
    assert_eq!(i2c.setup(1)[2], modify(b, 0x1C, 0, 12, 8_000_000));
}

#[test]
fn i2c_clock_control_has_a_floor_of_four() {
    let (i2c, _) = I2C::new(I2CBus::I2C3);
    let b = Block::I2c(I2CBus::I2C3);
    assert_eq!(i2c.setup(2_000_000).len(), 3);
    assert_eq!(i2c.setup(100_000)[2], modify(b, 0x1C, 0, 12, 80));
}

#[test]
fn i2c_slave_start_write() {
    let (i2c, _) = I2C::new(I2CBus::I2C1);
    let b = Block::I2c(I2CBus::I2C1);
    assert_eq!(i2c.slave(8), vec![modify(b, 0x8, 1, 7, 8), modify(b, 0x8, 14, 1, 1), modify(b, 0x0, 10, 1, 1)]);
    assert_eq!(i2c.start().len(), 4);
    let w = i2c.write(0x81, 7);
    assert_eq!(w[0], modify(b, 0x10, 0, 8, 2));
    assert_eq!(w[3], modify(b, 0x10, 0, 8, 7));
    assert_eq!(w[5], modify(b, 0x0, 9, 1, 1));
}

#[test]
fn i2c_receive_rounds() {
    let (i2c, _) = I2C::new(I2CBus::I2C1);
    let b = Block::I2c(I2CBus::I2C1);
    let data = i2c.read(1 << 6);
    assert_eq!(data.outcome, ReadOutcome::Data);
    assert!(data.ops.is_empty());
    let addr = i2c.read(1 << 1);
    assert_eq!(addr.outcome, ReadOutcome::Again);
    assert_eq!(addr.ops, vec![RegOp::Read { block: b, offset: 0x14, width: RegWidth::Reg32 }, RegOp::Read { block: b, offset: 0x18, width: RegWidth::Reg32 }]);
    let stop = i2c.read((1 << 4) | (1 << 8));
    assert_eq!(stop.outcome, ReadOutcome::Zero);
    assert_eq!(stop.ops, vec![RegOp::Read { block: b, offset: 0x14, width: RegWidth::Reg32 }, modify(b, 0x0, 0, 1, 1)]);
    let err = i2c.read(1 << 8);
    assert_eq!(err.outcome, ReadOutcome::Again);
    assert_eq!(err.ops, vec![modify(b, 0x14, 8, 1, 0)]);
    assert_eq!(I2C::data_byte(0x1234), 0x34);
}

#[test]
fn i2c_pins_take_alternate_function_four() {
    let (i2c, _) = I2C::new(I2CBus::I2C1);
    let (pin, ops) = i2c.conf_pin(7, Port::PortB);
    assert_eq!(pin.alternate_function, 4);
    assert_eq!(pin.pin.function, Function::AltFunction);
    let g = Block::Gpio(Port::PortB);
    assert_eq!(
        ops,
        vec![
            RegOp::EnableClock { clock: PeripheralClock::GPIOBClock },
            modify(g, 0x0, 14, 2, 2),
            modify(g, 0x20, 28, 4, 4),
            modify(g, 0x04, 7, 1, 1),
            modify(g, 0x0c, 14, 2, 0),
        ]
    );
}

#[test]
fn high_pins_use_the_high_function_register() {
    let p = AlternateFunctionPin::new(9, Port::PortA, 7);
    assert_eq!(p.setup()[2], modify(Block::Gpio(Port::PortA), 0x24, 4, 4, 7));
}

#[test]
fn gpio_pin_operations() {
    let led = Pin { port: Port::PortD, pin: 13, function: Function::GPIOOut };
    let g = Block::Gpio(Port::PortD);
    assert_eq!(led.setup(), vec![RegOp::EnableClock { clock: PeripheralClock::GPIODClock }, modify(g, 0x0, 26, 2, 1)]);
    assert_eq!(led.toggle(0), Ok(modify(g, 0x14, 13, 1, 1)));
    assert_eq!(led.toggle(1 << 13), Ok(modify(g, 0x14, 13, 1, 0)));
    let far = Pin { port: Port::PortD, pin: 16, function: Function::GPIOOut };
    assert_eq!(far.toggle(0), Err(IndexError { index: 16, count: 16 }));
    assert_eq!(far.set_high(), Err(IndexError { index: 16, count: 16 }));
    assert_eq!(far.set_low(), Err(IndexError { index: 16, count: 16 }));
    assert_eq!(far.level(0), Err(IndexError { index: 16, count: 16 }));
    assert_eq!(far.set_direction(GpioDirection::Out), Err(IndexError { index: 16, count: 16 }));
    assert_eq!(led.set_high(), Ok(RegOp::WriteField { block: g, offset: 0x18, width: RegWidth::Reg32, shift: 13, bits: 1, value: 1 }));
    assert_eq!(led.set_low(), Ok(RegOp::WriteField { block: g, offset: 0x18, width: RegWidth::Reg32, shift: 29, bits: 1, value: 1 }));
    assert_eq!(led.level(1 << 13), Ok(GpioLevel::High));
    assert_eq!(led.level(!(1 << 13)), Ok(GpioLevel::Low));
    assert_eq!(led.set_direction(GpioDirection::In), Ok(modify(g, 0x0, 26, 2, 0)));
    assert_eq!(led.get_reg(), g);
}

#[test]
fn applying_operations_to_a_word() {
    assert_eq!(apply(0xffff_ffff, modify(Block::AdcTsc, 0, 4, 4, 0)), 0xffff_ff0f);
    assert_eq!(apply(0xffff_ffff, RegOp::WriteField { block: Block::AdcTsc, offset: 0, width: RegWidth::Reg32, shift: 4, bits: 1, value: 1 }), 0x10);
    assert_eq!(apply(5, RegOp::Write { block: Block::AdcTsc, offset: 0, width: RegWidth::Reg32, value: 9 }), 9);
    assert_eq!(apply(5, RegOp::Read { block: Block::AdcTsc, offset: 0, width: RegWidth::Reg32 }), 5);
}

#[test]
fn am335x_clocks() {
    assert_eq!(WakeUpClock::enable(WakeUpClocks::UART0), Ok(modify(Block::ClockWakeUp, 0xB4, 0, 2, 2)));
    assert_eq!(WakeUpClock::enable(WakeUpClocks::WDT1), Err(IndexError { index: 8, count: 7 }));
    assert_eq!(PeripheralClockDomain::gpio(1).enable(), Ok(RegOp::Store { address: 0x44E0_00AC, value: 0x4002 }));
    assert_eq!(PeripheralClockDomain::gpio(3).enable(), Ok(RegOp::Store { address: 0x44E0_00B4, value: 0x4002 }));
    assert_eq!(PeripheralClockDomain::gpio(4).enable(), Err(IndexError { index: 4, count: 3 }));
    assert_eq!(PeripheralClockDomain::gpio(0).enable(), Err(IndexError { index: 0, count: 3 }));
    assert_eq!(put32(0x10, 3), RegOp::Store { address: 0x10, value: 3 });
}

#[test]
fn am335x_pin_configuration() {
    let ops = conf_pin(ModulePin::UART_0_TXD, false, false, true, false, 5);
    let o = 0x800 + 93 * 4;
    assert_eq!(ops[2], modify(Block::ControlModule, o, 4, 1, 1));
    assert_eq!(ops[4], modify(Block::ControlModule, o, 0, 3, 5));
}

#[test]
fn uart_start_and_write() {
    let u = UART::new(UARTModule::Module0);
    let b = Block::Uart(UARTModule::Module0);
    let ops = u.start();
    assert_eq!(ops.len(), 21);
    assert_eq!(ops[12], RegOp::Write { block: b, offset: 0x54, width: RegWidth::Reg16, value: 0x8 });
    assert_eq!(ops[14], RegOp::Modify { block: b, offset: 0x0, width: RegWidth::Reg16, shift: 0, bits: 8, value: 0x1A });
    assert_eq!(
        u.write(b'A'),
        vec![
            RegOp::WaitNonZero { block: b, offset: 0x14, width: RegWidth::Reg16, shift: 6, bits: 1 },
            RegOp::Write { block: b, offset: 0x0, width: RegWidth::Reg16, value: 65 },
        ]
    );
    assert_eq!(u.putc('A'), u.write(65));
}

#[test]
fn adc_conversion() {
    let (adc, ops) = ADC_TSC::new();
    assert_eq!(ops, vec![modify(Block::ClockWakeUp, 0xBC, 0, 2, 2)]);
    let r = adc.read_input(7);
    assert_eq!(r[0], modify(Block::AdcTsc, 0x64, 19, 4, 7));
    assert_eq!(r[2], modify(Block::AdcTsc, 0x54, 1, 1, 1));
    assert_eq!(r[4], RegOp::WaitNonZero { block: Block::AdcTsc, offset: 0xE4, width: RegWidth::Reg32, shift: 0, bits: 7 });
    assert_eq!(ADC_TSC::sample(0x000f_0abc), 0xabc);
}
