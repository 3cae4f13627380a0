//! A register-definition compiler for memory-mapped peripherals, with the
//! runtime support its accessors rely on, the drivers built on them (as
//! sequences of register operations), and the platform-description tree.
pub mod am335x;
pub mod bus;
pub mod codegen;
pub mod diag;
pub mod layout;
pub mod model;
pub mod parse;
pub mod platform;
pub mod runtime;
pub mod stm32f4;
pub mod validate;
