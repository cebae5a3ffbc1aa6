//! Verified core of a host tool for SPI NOR flash programmers.
//!
//! The crate decides; it does no I/O.  Everything a command sends to the
//! programmer is computed here as a list of [`host::HostOp`]s or handed out step by
//! step by a state machine, and everything that comes back is decoded here.
pub mod args;
pub mod bios;
pub mod bytes;
pub mod chip;
pub mod cmd;
pub mod db;
pub mod error;
pub mod flash;
pub mod fpga;
pub mod host;
pub mod programmer;
pub mod progress;
pub mod spi;
pub mod text;
pub mod units;
pub mod usb;
