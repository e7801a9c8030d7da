//! EEPROM addresses worth reading.
use vstd::prelude::*;

verus! {

/// 16 bytes, unique per die.
pub const DIE_IDENTIFIER: u8 = 0x00;

/// 2 bytes, minor then major.
pub const PRODUCT_VERSION: u8 = 0x10;

/// 2 bytes, minor then major.
pub const FIRMWARE_VERSION: u8 = 0x12;

/// 2 bytes, minor then major.
pub const EEPROM_VERSION: u8 = 0x14;

} // verus!
