//! Modem transports: the interface the engine drives, and the decisions of
//! the PTY bridge and USB endpoint discovery.
pub mod inspect;
pub mod pty;
pub mod usb;
pub mod traits;
