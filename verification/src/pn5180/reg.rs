//! Registers of the chip.
use vstd::prelude::*;

verus! {

/// Bits 2:0 select the transceive command.
pub const SYSTEM_CONFIG: u8 = 0x00;

pub const IRQ_STATUS: u8 = 0x02;

pub const IRQ_CLEAR: u8 = 0x03;

/// Bits 8:0 are the number of bytes received.
pub const RX_STATUS: u8 = 0x13;

/// Bits 26:24 are the transceive state.
pub const RF_STATUS: u8 = 0x1d;

/// Bit 0 enables the receiver's CRC check.
pub const CRC_RX_CONFIG: u8 = 0x12;

/// Bit 0 enables the transmitter's CRC.
pub const CRC_TX_CONFIG: u8 = 0x19;

/// Transmitter framing. Clearing bits 6, 7 and 10 makes it send a bare EOF.
pub const TX_CONFIG: u8 = 0x18;

} // verus!
