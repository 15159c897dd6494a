//! Emulated-device layer of a virtual machine monitor: an address-routed
//! dispatcher that maps trapped guest MMIO and port accesses to software
//! device models, and the three stateful models it routes to — a firmware
//! configuration interface, an RTC/CMOS bank, and a PCI configuration space.

use vstd::prelude::*;

pub mod config;
pub mod device;
pub mod fwcfg;
pub mod pci;
pub mod rtc;

pub use config::AxVmDeviceConfig;
pub use device::AxVmDevices;

verus! {

/// Recoverable failures of the device layer: a dispatch miss, or a firmware
/// configuration request that falls outside the entry table.
#[derive(Clone, Copy, Debug, PartialEq, Eq, Structural)]
pub enum AxVmDeviceError {
    /// No registered device claims the address.
    DeviceNotFound(usize),
    /// A firmware configuration selector or file slot is out of bounds.
    EntryOutOfRange,
}

} // verus!
