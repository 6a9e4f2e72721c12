//! Verified core of the Mac mini front-LED tray application and of its
//! privileged SMC helper.

pub mod platform;
pub mod text;
pub mod protocol;
pub mod smc;
pub mod effects;
pub mod led;
