//! Firmware image formats.  They are decoded from raw bytes, wherever these come from.
pub mod amd_psp;
pub mod efifv;
pub mod ifd;
pub mod layout;
