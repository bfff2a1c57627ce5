//! Bridge engine for forwarding a wireless biosignal sensor's notification
//! stream onto a locally provisioned virtual serial port pair.
//!
//! The library holds the verified core: the device registry and its
//! discovery/connection state machine, the parser that recovers the
//! OS-assigned companion port name from the null-modem driver's `list`
//! output, the provisioning command plan, and the event router that
//! couples notifications to serial writes. The surrounding radio,
//! process and serial I/O lives outside the library.

pub mod ble;
pub mod port;
pub mod route;
pub mod state;
pub mod text;
