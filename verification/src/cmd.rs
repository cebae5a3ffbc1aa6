//! What each command decides and reports.
pub mod check;
pub mod compare;
pub mod detect;
pub mod erase;
pub mod fmap;
pub mod labels;
pub mod lock;
pub mod protect;
pub mod range;
pub mod read;
pub mod regions;
pub mod sfdp;
pub mod status;
pub mod uid;
pub mod watch;
pub mod write;
