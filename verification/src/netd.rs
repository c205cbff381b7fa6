//! The privileged helper: its request protocol and its worker bookkeeping.

pub mod protocol;
pub mod system;
