//! Direct commands, from the datasheet's instruction set.
use vstd::prelude::*;

verus! {

pub const WRITE_REGISTER: u8 = 0x00;

pub const WRITE_REGISTER_OR_MASK: u8 = 0x01;

pub const WRITE_REGISTER_AND_MASK: u8 = 0x02;

pub const READ_REGISTER: u8 = 0x04;

pub const READ_EEPROM: u8 = 0x07;

pub const SEND_DATA: u8 = 0x09;

pub const READ_DATA: u8 = 0x0a;

pub const LOAD_RF_CONFIG: u8 = 0x11;

pub const RF_ON: u8 = 0x16;

pub const RF_OFF: u8 = 0x17;

} // verus!
