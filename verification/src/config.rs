//! Configuration descriptors handed to the device layer by the VM setup
//! path: an ordered list of per-device descriptors.

use vstd::prelude::*;

verus! {

/// One emulated-device descriptor: a type tag and the address-space
/// parameters of the device it asks for.
pub struct EmuDeviceConfig {
    /// Type tag selecting the device model.
    pub emu_type: usize,
    /// Guest physical base address of the device's register window.
    pub base_gpa: usize,
    /// Length in bytes of the register window.
    pub length: usize,
    /// Interrupt line of the device, if any.
    pub irq_id: usize,
}

/// The ordered list of emulated-device descriptors for one VM.
pub struct AxVmDeviceConfig {
    /// The descriptors, in registration order.
    pub emu_configs: Vec<EmuDeviceConfig>,
}

impl AxVmDeviceConfig {
    /// Wraps a descriptor list.
    pub fn new(emu_configs: Vec<EmuDeviceConfig>) -> (r: AxVmDeviceConfig)
        ensures
            r.emu_configs@ == emu_configs@,
    {
        AxVmDeviceConfig { emu_configs }
    }
}

} // verus!
