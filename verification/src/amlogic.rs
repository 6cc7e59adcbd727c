//! Amlogic USB boot protocol.
pub mod amlc;
pub mod checksum;
pub mod commands;
pub mod device;
pub mod encoding;
pub mod error;
pub mod large;
pub mod memory;
pub mod socid;
pub mod transfer;

pub use error::AmlError;
pub use socid::SocId;

use vstd::prelude::*;

verus! {

// ── Protocol request codes ──────────────────────────────────────────────
pub const REQ_WRITE_MEM: u8 = 0x01;
pub const REQ_READ_MEM: u8 = 0x02;
pub const REQ_MODIFY_MEM: u8 = 0x04;
pub const REQ_RUN_IN_ADDR: u8 = 0x05;
pub const REQ_WR_LARGE_MEM: u8 = 0x11;
pub const REQ_RD_LARGE_MEM: u8 = 0x12;
pub const REQ_IDENTIFY_HOST: u8 = 0x20;
pub const REQ_TPL_CMD: u8 = 0x30;
pub const REQ_TPL_STAT: u8 = 0x31;
pub const REQ_WRITE_MEDIA: u8 = 0x32;
pub const REQ_READ_MEDIA: u8 = 0x33;
pub const REQ_BULKCMD: u8 = 0x34;
pub const REQ_PASSWORD: u8 = 0x35;
pub const REQ_NOP: u8 = 0x36;
pub const REQ_GET_AMLC: u8 = 0x50;
pub const REQ_WRITE_AMLC: u8 = 0x60;

/// Flag of the run request that keeps the SoC powered.
pub const FLAG_KEEP_POWER_ON: u32 = 0x10;

/// Length of an AMLC request and of an AMLS block.
pub const AMLC_AMLS_BLOCK_LENGTH: usize = 0x200;
/// Largest bulk write of AMLC data.
pub const AMLC_MAX_BLOCK_LENGTH: usize = 0x4000;
/// Largest AMLC data write announced by one request.
pub const AMLC_MAX_TRANSFER_LENGTH: usize = 65536;

/// Largest number of blocks of one large memory transfer.
pub const MAX_LARGE_BLOCK_COUNT: usize = 65535;

/// Checksum algorithm code of a media write: additive sum.
pub const WRITE_MEDIA_CHECKSUM_ALG_ADDSUM: u16 = 0x00ef;

/// USB ids of an Amlogic SoC in boot mode.
pub const DEFAULT_VENDOR_ID: u16 = 0x1b8e;
pub const DEFAULT_PRODUCT_ID: u16 = 0xc003;

/// Timeouts of control and bulk transfers, in milliseconds.
pub const CTRL_TIMEOUT_MS: u64 = 1000;
pub const BULK_TIMEOUT_MS: u64 = 2000;

/// Length of the reply to a bulk command.
pub const BULK_REPLY_LEN: usize = 512;

/// Largest chunk of a simple memory access.
pub const SIMPLE_MEMORY_MAX: usize = 64;

} // verus!
