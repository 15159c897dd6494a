//! PCI configuration-space model: a config-address/config-data register pair
//! decoding bus/device/function/offset and exposing per-function
//! configuration fields and Base Address Registers.

use vstd::prelude::*;

use crate::AxVmDeviceError;

verus! {

/// Port of the config-address register; the config-data register is at
/// `PCI_IO_BASE + 4`.
pub const PCI_IO_BASE: usize = 0x0cf8;

/// Port of the config-data register.
pub const PCI_CONFIG_DATA: usize = 0x0cfc;

/// Bus number encoded in a config address: bits 23..16.
pub open spec fn addr_bus(a: u32) -> u8 {
    ((a >> 16) & 0xff) as u8
}

/// Device number encoded in a config address: bits 15..11.
pub open spec fn addr_device(a: u32) -> u8 {
    ((a >> 11) & 0x1f) as u8
}

/// Function number encoded in a config address: bits 10..8.
pub open spec fn addr_function(a: u32) -> u8 {
    ((a >> 8) & 0x7) as u8
}

/// Register offset encoded in a config address: bits 7..0.
pub open spec fn addr_offset(a: u32) -> u8 {
    (a & 0xff) as u8
}

/// Mathematical form of one function's configuration record.
#[verifier::ext_equal]
pub ghost struct PciDeviceModel {
    /// Vendor identifier, offset 0 bits 15..0.
    pub vendor_id: u16,
    /// Device identifier, offset 0 bits 31..16.
    pub device_id: u16,
    /// Class code, offset 8 bits 7..0.
    pub class_code: u8,
    /// Subclass, offset 8 bits 15..8.
    pub subclass: u8,
    /// Programming interface, offset 8 bits 23..16.
    pub prog_if: u8,
    /// Revision identifier, offset 12 bits 7..0.
    pub revision_id: u8,
    /// Base Address Registers, in order.
    pub bar: Seq<u32>,
}

impl PciDeviceModel {
    /// Value of a config-data read from this record at `offset`; offsets not
    /// backed by a field read as zero.
    pub open spec fn spec_read_config(self, offset: u8) -> u32 {
        if offset == 0x00 {
            (self.vendor_id as u32) | ((self.device_id as u32) << 16)
        } else if offset == 0x08 {
            (self.class_code as u32) | ((self.subclass as u32) << 8) | ((self.prog_if as u32) << 16)
        } else if offset == 0x0c {
            self.revision_id as u32
        } else if 0x10 <= offset && offset <= 0x1f {
            let bi = ((offset - 0x10) as int) / 4;
            if bi < self.bar.len() {
                self.bar[bi]
            } else {
                0
            }
        } else {
            0
        }
    }

    /// Effect of a config-data write to this record at `offset`; offsets not
    /// backed by a field are ignored.
    pub open spec fn spec_write_config(self, offset: u8, value: u32) -> PciDeviceModel {
        if offset == 0x00 {
            PciDeviceModel {
                vendor_id: (value & 0xffff) as u16,
                device_id: ((value >> 16) & 0xffff) as u16,
                ..self
            }
        } else if offset == 0x08 {
            PciDeviceModel {
                class_code: (value & 0xff) as u8,
                subclass: ((value >> 8) & 0xff) as u8,
                prog_if: ((value >> 16) & 0xff) as u8,
                ..self
            }
        } else if offset == 0x0c {
            PciDeviceModel { revision_id: (value & 0xff) as u8, ..self }
        } else if 0x10 <= offset && offset <= 0x1f {
            let bi = ((offset - 0x10) as int) / 4;
            if bi < self.bar.len() {
                PciDeviceModel { bar: self.bar.update(bi, value), ..self }
            } else {
                self
            }
        } else {
            self
        }
    }
}

/// Mathematical form of one slot of the device table: a function record
/// keyed by bus and device number (the function number is not part of the
/// key, a documented simplification).
#[verifier::ext_equal]
pub ghost struct PciFunctionModel {
    /// Bus number of the slot.
    pub bus: u8,
    /// Device number of the slot.
    pub device: u8,
    /// The function's configuration record.
    pub info: PciDeviceModel,
}

/// Index of the slot keyed `(bus, device)`, scanning in table order.
pub open spec fn find_function(devs: Seq<PciFunctionModel>, bus: u8, device: u8) -> Option<int>
    decreases devs.len(),
{
    if devs.len() == 0 {
        None
    } else if devs[0].bus == bus && devs[0].device == device {
        Some(0)
    } else {
        match find_function(devs.drop_first(), bus, device) {
            Some(i) => Some(i + 1),
            None => None,
        }
    }
}

/// What a lookup result means: a hit is the first slot with the key, a miss
/// means no slot has it.
pub proof fn lemma_find_function_props(devs: Seq<PciFunctionModel>, bus: u8, device: u8)
    ensures
        match find_function(devs, bus, device) {
            Some(i) => 0 <= i < devs.len() && devs[i].bus == bus && devs[i].device == device
                && forall|j: int| 0 <= j < i
                    ==> !((#[trigger] devs[j]).bus == bus && devs[j].device == device),
            None => forall|j: int| 0 <= j < devs.len()
                ==> !((#[trigger] devs[j]).bus == bus && devs[j].device == device),
        },
    decreases devs.len(),
{
    if devs.len() > 0 && !(devs[0].bus == bus && devs[0].device == device) {
        let d = devs.drop_first();
        lemma_find_function_props(d, bus, device);
        match find_function(d, bus, device) {
            Some(ip) => {
                assert(d[ip] == devs[ip + 1]);
                assert forall|j: int| 0 <= j < ip + 1 implies !((#[trigger] devs[j]).bus == bus
                    && devs[j].device == device) by {
                    if j > 0 {
                        assert(d[j - 1] == devs[j]);
                    }
                }
            },
            None => {
                assert forall|j: int| 0 <= j < devs.len() implies !((#[trigger] devs[j]).bus == bus
                    && devs[j].device == device) by {
                    if j > 0 {
                        assert(d[j - 1] == devs[j]);
                    }
                }
            },
        }
    }
}

/// A position that is the first to hold the key is the one the lookup finds;
/// if no position holds it, the lookup misses.
pub proof fn lemma_find_function_at(devs: Seq<PciFunctionModel>, bus: u8, device: u8, i: int)
    requires
        0 <= i <= devs.len(),
        forall|j: int| 0 <= j < i ==> !((#[trigger] devs[j]).bus == bus && devs[j].device == device),
        i < devs.len() ==> devs[i].bus == bus && devs[i].device == device,
    ensures
        if i < devs.len() {
            find_function(devs, bus, device) == Some(i)
        } else {
            find_function(devs, bus, device) is None
        },
    decreases devs.len(),
{
    if devs.len() == 0 {
    } else if devs[0].bus == bus && devs[0].device == device {
        assert(i == 0);
    } else {
        let d = devs.drop_first();
        assert(forall|j: int| 0 <= j < i - 1 ==> #[trigger] d[j] == devs[j + 1]);
        assert(i >= 1);
        lemma_find_function_at(d, bus, device, i - 1);
    }
}

/// Mathematical state of the PCI configuration device.
#[verifier::ext_equal]
pub ghost struct PciBusModel {
    /// Guest address of the config-address register.
    pub base: usize,
    /// The config-address register, stored verbatim.
    pub config_address: u32,
    /// The device table, keyed by bus and device number.
    pub devices: Seq<PciFunctionModel>,
}

impl PciBusModel {
    /// Validity: the registers sit at their architectural ports and keys are
    /// unique in the table.
    pub open spec fn wf(self) -> bool {
        &&& self.base == PCI_IO_BASE
        &&& forall|i: int, j: int| 0 <= i < j < self.devices.len()
            ==> !((#[trigger] self.devices[i]).bus == (#[trigger] self.devices[j]).bus
                && self.devices[i].device == self.devices[j].device)
    }

    /// Effect of a config-address write: the value is stored verbatim.
    pub open spec fn spec_set_config_address(self, address: u32) -> PciBusModel {
        PciBusModel { config_address: address, ..self }
    }

    /// Value of a config-data read: the addressed function's field, or zero
    /// when the decoded bus and device match no slot.
    pub open spec fn spec_read_config(self) -> u32 {
        match find_function(
            self.devices,
            addr_bus(self.config_address),
            addr_device(self.config_address),
        ) {
            Some(i) => self.devices[i].info.spec_read_config(addr_offset(self.config_address)),
            None => 0,
        }
    }

    /// Effect of a config-data write: the addressed function's field is
    /// updated; a miss is a no-op.
    pub open spec fn spec_write_config(self, value: u32) -> PciBusModel {
        match find_function(
            self.devices,
            addr_bus(self.config_address),
            addr_device(self.config_address),
        ) {
            Some(i) => PciBusModel {
                devices: self.devices.update(
                    i,
                    PciFunctionModel {
                        info: self.devices[i].info.spec_write_config(
                            addr_offset(self.config_address),
                            value,
                        ),
                        ..self.devices[i]
                    },
                ),
                ..self
            },
            None => self,
        }
    }

    /// Effect of registering a function: an existing slot with the key is
    /// replaced, otherwise a slot is appended.
    pub open spec fn spec_add_device(self, bus: u8, device: u8, info: PciDeviceModel) -> PciBusModel {
        match find_function(self.devices, bus, device) {
            Some(i) => PciBusModel {
                devices: self.devices.update(i, PciFunctionModel { bus, device, info }),
                ..self
            },
            None => PciBusModel {
                devices: self.devices.push(PciFunctionModel { bus, device, info }),
                ..self
            },
        }
    }

    /// Value returned by a read at `addr`: the address register reads back
    /// verbatim, the data register decodes and reads, anything else in range
    /// yields zero.
    pub open spec fn spec_handle_read_val(self, addr: usize) -> usize {
        if addr == PCI_IO_BASE {
            self.config_address as usize
        } else if addr == PCI_CONFIG_DATA {
            self.spec_read_config() as usize
        } else {
            0
        }
    }

    /// Effect of a write at `addr`: the address register stores, the data
    /// register decodes and writes, anything else in range is ignored.
    pub open spec fn spec_handle_write_state(self, addr: usize, val: usize) -> PciBusModel {
        if addr == PCI_IO_BASE {
            self.spec_set_config_address((val & 0xffffffff) as u32)
        } else if addr == PCI_CONFIG_DATA {
            self.spec_write_config((val & 0xffffffff) as u32)
        } else {
            self
        }
    }

    /// The network function registered at bus 0, device 0.
    pub open spec fn builtin_net() -> PciDeviceModel {
        PciDeviceModel {
            vendor_id: 0x8086,
            device_id: 0x1234,
            class_code: 0x02,
            subclass: 0x00,
            prog_if: 0x00,
            revision_id: 0x01,
            bar: seq![0x00000000u32, 0x00001000u32],
        }
    }

    /// The display function registered at bus 0, device 1.
    pub open spec fn builtin_display() -> PciDeviceModel {
        PciDeviceModel {
            vendor_id: 0x8086,
            device_id: 0x1234,
            class_code: 0x03,
            subclass: 0x00,
            prog_if: 0x00,
            revision_id: 0x01,
            bar: seq![0x00000000u32, 0x00001000u32],
        }
    }

    /// State as constructed: a cleared address register and the two built-in
    /// functions.
    pub open spec fn init() -> PciBusModel {
        (PciBusModel { base: PCI_IO_BASE, config_address: 0, devices: Seq::empty() })
            .spec_add_device(0, 0, PciBusModel::builtin_net())
            .spec_add_device(0, 1, PciBusModel::builtin_display())
    }
}

/// One function's configuration record.
#[derive(Debug)]
pub struct PciDevice {
    /// Vendor identifier.
    pub vendor_id: u16,
    /// Device identifier.
    pub device_id: u16,
    /// Class code.
    pub class_code: u8,
    /// Subclass.
    pub subclass: u8,
    /// Programming interface.
    pub prog_if: u8,
    /// Revision identifier.
    pub revision_id: u8,
    /// Base Address Registers.
    pub bar: Vec<u32>,
}

impl View for PciDevice {
    type V = PciDeviceModel;

    open spec fn view(&self) -> PciDeviceModel {
        PciDeviceModel {
            vendor_id: self.vendor_id,
            device_id: self.device_id,
            class_code: self.class_code,
            subclass: self.subclass,
            prog_if: self.prog_if,
            revision_id: self.revision_id,
            bar: self.bar@,
        }
    }
}

/// One slot of the device table.
pub struct PciDeviceSlot {
    /// Bus number of the slot.
    pub bus: u8,
    /// Device number of the slot.
    pub device: u8,
    /// The function's configuration record.
    pub info: PciDevice,
}

impl View for PciDeviceSlot {
    type V = PciFunctionModel;

    open spec fn view(&self) -> PciFunctionModel {
        PciFunctionModel { bus: self.bus, device: self.device, info: self.info@ }
    }
}

/// The device table behind the register pair.
pub struct PciBusInner {
    /// The slots, with pairwise distinct keys.
    pub devices: Vec<PciDeviceSlot>,
}

impl PciBusInner {
    /// Builds an empty device table.
    pub fn new() -> (r: PciBusInner)
        ensures
            r.devices@.len() == 0,
    {
        PciBusInner { devices: Vec::new() }
    }
}

/// PCI configuration device: the config-address register at `base` and the
/// config-data register at `base + 4`.
pub struct PciBus {
    /// Guest address of the config-address register.
    pub base: usize,
    /// The config-address register, stored verbatim.
    pub config_address: u32,
    /// The device table.
    pub inner: PciBusInner,
}

impl View for PciBus {
    type V = PciBusModel;

    open spec fn view(&self) -> PciBusModel {
        PciBusModel {
            base: self.base,
            config_address: self.config_address,
            devices: self.inner.devices@.map_values(|s: PciDeviceSlot| s@),
        }
    }
}

impl PciBus {
    /// Builds the device at its architectural ports with the two built-in
    /// functions registered.
    pub fn new() -> (r: PciBus)
        ensures
            r@ == PciBusModel::init(),
            r@.wf(),
    {
        let mut bus = PciBus {
            base: PCI_IO_BASE,
            config_address: 0,
            inner: PciBusInner::new(),
        };
        proof {
            assert(bus@.devices =~= Seq::<PciFunctionModel>::empty());
        }

        let mut bar: Vec<u32> = Vec::new();
        bar.push(0x00000000);
        bar.push(0x00001000);
        let device = PciDevice {
            vendor_id: 0x8086,
            device_id: 0x1234,
            class_code: 0x02,
            subclass: 0x00,
            prog_if: 0x00,
            revision_id: 0x01,
            bar,
        };
        proof {
            assert(device@.bar =~= PciBusModel::builtin_net().bar);
            assert(device@ =~= PciBusModel::builtin_net());
        }
        bus.add_device(0, 0, 0, device);

        let mut bar2: Vec<u32> = Vec::new();
        bar2.push(0x00000000);
        bar2.push(0x00001000);
        let device2 = PciDevice {
            vendor_id: 0x8086,
            device_id: 0x1234,
            class_code: 0x03,
            subclass: 0x00,
            prog_if: 0x00,
            revision_id: 0x01,
            bar: bar2,
        };
        proof {
            assert(device2@.bar =~= PciBusModel::builtin_display().bar);
            assert(device2@ =~= PciBusModel::builtin_display());
        }
        bus.add_device(0, 1, 0, device2);
        bus
    }

    /// Index of the slot keyed `(bus, device)` in the table.
    fn find_device_index(&self, bus: u8, device: u8) -> (r: Option<usize>)
        ensures
            match r {
                Some(i) => i < self.inner.devices@.len() && Some(i as int) == find_function(
                    self@.devices,
                    bus,
                    device,
                ),
                None => find_function(self@.devices, bus, device) is None,
            },
    {
        let n = self.inner.devices.len();
        let mut i: usize = 0;
        while i < n
            invariant
                i <= n,
                n == self@.devices.len(),
                forall|j: int| 0 <= j < i
                    ==> !((#[trigger] self@.devices[j]).bus == bus && self@.devices[j].device == device),
            decreases n - i,
        {
            if self.inner.devices[i].bus == bus && self.inner.devices[i].device == device {
                proof {
                    lemma_find_function_at(self@.devices, bus, device, i as int);
                }
                return Some(i);
            }
            i += 1;
        }
        proof {
            lemma_find_function_at(self@.devices, bus, device, n as int);
        }
        None
    }

    /// Registers a function record under `(bus, device)`; the function number
    /// is accepted and ignored.
    pub fn add_device(&mut self, bus: u8, device: u8, _function: u8, device_info: PciDevice)
        ensures
            final(self)@ == old(self)@.spec_add_device(bus, device, device_info@),
            old(self)@.wf() ==> final(self)@.wf(),
    {
        let ghost m0 = self@;
        let ghost info = device_info@;
        match self.find_device_index(bus, device) {
            Some(i) => {
                self.inner.devices.set(i, PciDeviceSlot { bus, device, info: device_info });
                proof {
                    assert(self@.devices =~= m0.devices.update(
                        i as int,
                        PciFunctionModel { bus, device, info },
                    ));
                    assert(self@ =~= m0.spec_add_device(bus, device, info));
                    if m0.wf() {
                        lemma_find_function_props(m0.devices, bus, device);
                        assert(m0.devices[i as int].bus == bus
                            && m0.devices[i as int].device == device);
                        assert forall|p: int, q: int| 0 <= p < q < self@.devices.len()
                            implies !((#[trigger] self@.devices[p]).bus
                                == (#[trigger] self@.devices[q]).bus
                                && self@.devices[p].device == self@.devices[q].device) by {
                            assert(self@.devices[p].bus == m0.devices[p].bus
                                && self@.devices[p].device == m0.devices[p].device);
                            assert(self@.devices[q].bus == m0.devices[q].bus
                                && self@.devices[q].device == m0.devices[q].device);
                        }
                    }
                }
            },
            None => {
                self.inner.devices.push(PciDeviceSlot { bus, device, info: device_info });
                proof {
                    assert(self@.devices =~= m0.devices.push(
                        PciFunctionModel { bus, device, info },
                    ));
                    assert(self@ =~= m0.spec_add_device(bus, device, info));
                    if m0.wf() {
                        lemma_find_function_props(m0.devices, bus, device);
                        assert(self@.wf());
                    }
                }
            },
        }
    }

    /// Stores a config address verbatim.
    pub fn set_config_address(&mut self, address: u32)
        ensures
            final(self)@ == old(self)@.spec_set_config_address(address),
    {
        self.config_address = address;
    }

    /// Reads the config address back verbatim.
    pub fn get_config_address(&self) -> (r: u32)
        ensures
            r == self@.config_address,
    {
        self.config_address
    }

    /// Reads the field of the addressed function; a decoded bus and device
    /// that match no slot, and offsets not backed by a field, read as zero.
    pub fn read_config(&self) -> (r: u32)
        ensures
            r == self@.spec_read_config(),
    {
        let config_address = self.get_config_address();
        let bus = #[verifier::truncate] (((config_address >> 16) & 0xff) as u8);
        let device = #[verifier::truncate] (((config_address >> 11) & 0x1f) as u8);
        let offset = #[verifier::truncate] ((config_address & 0xff) as u8);

        match self.find_device_index(bus, device) {
            None => 0,
            Some(i) => {
                let dev = &self.inner.devices[i].info;
                if offset == 0x00 {
                    (dev.vendor_id as u32) | ((dev.device_id as u32) << 16)
                } else if offset == 0x08 {
                    (dev.class_code as u32) | ((dev.subclass as u32) << 8)
                        | ((dev.prog_if as u32) << 16)
                } else if offset == 0x0c {
                    dev.revision_id as u32
                } else if 0x10 <= offset && offset <= 0x1f {
                    let bi = ((offset - 0x10) / 4) as usize;
                    if bi < dev.bar.len() {
                        dev.bar[bi]
                    } else {
                        0
                    }
                } else {
                    0
                }
            },
        }
    }

    /// Writes the field of the addressed function; a miss, and offsets not
    /// backed by a field, are ignored.
    pub fn write_config(&mut self, value: u32)
        ensures
            final(self)@ == old(self)@.spec_write_config(value),
            old(self)@.wf() ==> final(self)@.wf(),
    {
        let ghost m0 = self@;
        let config_address = self.get_config_address();
        let bus = #[verifier::truncate] (((config_address >> 16) & 0xff) as u8);
        let device = #[verifier::truncate] (((config_address >> 11) & 0x1f) as u8);
        let offset = #[verifier::truncate] ((config_address & 0xff) as u8);

        match self.find_device_index(bus, device) {
            None => {
                proof {
                    assert(self@ =~= m0.spec_write_config(value));
                }
            },
            Some(i) => {
                let ghost pre = self@.devices;
                let mut slot = self.inner.devices.remove(i);
                proof {
                    pre.remove_ensures(i as int);
                    assert(slot@ == pre[i as int]);
                }
                if offset == 0x00 {
                    slot.info.vendor_id = #[verifier::truncate] ((value & 0xffff) as u16);
                    slot.info.device_id = #[verifier::truncate] (((value >> 16) & 0xffff) as u16);
                } else if offset == 0x08 {
                    slot.info.class_code = #[verifier::truncate] ((value & 0xff) as u8);
                    slot.info.subclass = #[verifier::truncate] (((value >> 8) & 0xff) as u8);
                    slot.info.prog_if = #[verifier::truncate] (((value >> 16) & 0xff) as u8);
                } else if offset == 0x0c {
                    slot.info.revision_id = #[verifier::truncate] ((value & 0xff) as u8);
                } else if 0x10 <= offset && offset <= 0x1f {
                    let bi = ((offset - 0x10) / 4) as usize;
                    if bi < slot.info.bar.len() {
                        slot.info.bar.set(bi, value);
                    }
                }
                proof {
                    assert(slot@ =~= (PciFunctionModel {
                        info: pre[i as int].info.spec_write_config(offset, value),
                        ..pre[i as int]
                    }));
                }
                self.inner.devices.insert(i, slot);
                proof {
                    pre.remove(i as int).insert_ensures(i as int, slot@);
                    assert(self@.devices =~= pre.update(i as int, slot@));
                    assert(self@ =~= m0.spec_write_config(value));
                }
            },
        }
    }

    /// Half-open guest address range `[base, base + 8)` of the register pair.
    pub fn address_range(&self) -> (r: (usize, usize))
        requires
            self@.wf(),
        ensures
            r.0 == self@.base,
            r.1 == self@.base + 8,
    {
        (self.base, self.base + 8)
    }

    /// A read of the address register returns it verbatim; a read of the data
    /// register decodes it and reads the addressed field; reads anywhere else
    /// in the range return zero. The state is unchanged.
    pub fn handle_read(&mut self, addr: usize, _width: usize) -> (r: Result<usize, AxVmDeviceError>)
        ensures
            final(self)@ == old(self)@,
            r == Ok::<usize, AxVmDeviceError>(old(self)@.spec_handle_read_val(addr)),
    {
        if addr == PCI_IO_BASE {
            Ok(self.get_config_address() as usize)
        } else if addr == PCI_CONFIG_DATA {
            Ok(self.read_config() as usize)
        } else {
            Ok(0)
        }
    }

    /// A write at the address register stores it; a write at the data
    /// register decodes the address and writes the addressed field; writes
    /// anywhere else in the range are ignored.
    pub fn handle_write(&mut self, addr: usize, _width: usize, val: usize)
        ensures
            final(self)@ == old(self)@.spec_handle_write_state(addr, val),
            old(self)@.wf() ==> final(self)@.wf(),
    {
        if addr == PCI_IO_BASE {
            self.set_config_address(#[verifier::truncate] ((val & 0xffffffff) as u32));
        } else if addr == PCI_CONFIG_DATA {
            self.write_config(#[verifier::truncate] ((val & 0xffffffff) as u32));
        }
    }
}

/// Round trip through a Base Address Register: a value written through the
/// data register to a BAR offset of a present function is read back unchanged
/// by the next data-register read under the same config address.
pub proof fn lemma_bar_round_trip(m: PciBusModel, value: u32)
    requires
        m.wf(),
        0x10 <= addr_offset(m.config_address) <= 0x1f,
        find_function(m.devices, addr_bus(m.config_address), addr_device(m.config_address)) is Some,
        ({
            let i = find_function(
                m.devices,
                addr_bus(m.config_address),
                addr_device(m.config_address),
            ).unwrap();
            ((addr_offset(m.config_address) - 0x10) as int) / 4 < m.devices[i].info.bar.len()
        }),
    ensures
        m.spec_write_config(value).spec_read_config() == value,
{
    let bus = addr_bus(m.config_address);
    let device = addr_device(m.config_address);
    let offset = addr_offset(m.config_address);
    let i = find_function(m.devices, bus, device).unwrap();
    lemma_find_function_props(m.devices, bus, device);
    let m1 = m.spec_write_config(value);
    assert(m1.devices.len() == m.devices.len());
    assert(forall|j: int| 0 <= j < i
        ==> !((#[trigger] m1.devices[j]).bus == bus && m1.devices[j].device == device));
    assert(m1.devices[i].bus == bus && m1.devices[i].device == device);
    lemma_find_function_at(m1.devices, bus, device, i);
    let bi = ((offset - 0x10) as int) / 4;
    assert(m1.devices[i].info.bar[bi] == value);
}

/// Round trip through the config-address register: any 32-bit value written
/// to it is returned unchanged by a subsequent read of the same register.
pub proof fn lemma_config_address_round_trip(m: PciBusModel, value: u32)
    ensures
        m.spec_handle_write_state(PCI_IO_BASE, value as usize).spec_handle_read_val(PCI_IO_BASE)
            == value as usize,
{
    assert(((value as usize) & 0xffffffff) as u32 == value) by (bit_vector);
}

} // verus!
