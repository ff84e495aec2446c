//! Protocol engine of a USB debug probe: the CMSIS-DAP command processor, the
//! SWD and JTAG transaction engines it drives, and the helpers that compute
//! what goes into the probe's peripherals.
//!
//! The engines never touch a peripheral themselves. Every operation goes
//! through the [`board::Board`] trait, whose ghost trace records what was
//! asked of the hardware and what it answered, so that each contract can say
//! which operations a call performs, in which order, and how its result
//! follows from the answers.

pub mod board;
pub mod bits;
pub mod slices;
pub mod spi;
pub mod rcc;
pub mod delay;
pub mod gpio;
pub mod jtag;
pub mod swd;
pub mod uart;
pub mod vcp;
pub mod dap;
pub mod sim;
pub mod wired;
pub mod app;

use vstd::prelude::*;

verus! {

/// Size of a CMSIS-DAP v1 (HID) packet.
pub const DAP1_PACKET_SIZE: u16 = 64;

/// Size of a CMSIS-DAP v2 (bulk) packet.
pub const DAP2_PACKET_SIZE: u16 = 512;

/// Size of a virtual serial port packet.
pub const VCP_PACKET_SIZE: u16 = 512;

} // verus!
