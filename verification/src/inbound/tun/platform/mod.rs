//! Routing the traffic of the system through the TUN device.

pub mod command;
pub mod desktop_laws;
pub mod linux;
pub mod linux_laws;
pub mod macos;
pub mod other;
pub mod ranges;
pub mod subranges;
pub mod windows;
