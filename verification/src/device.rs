//! Device registry and dispatcher: an ordered, construction-time-fixed
//! collection of device models, and the routing of trapped guest MMIO and
//! port accesses to the first device whose address range contains the
//! address.

use vstd::prelude::*;

use crate::config::AxVmDeviceConfig;
use crate::config::EmuDeviceConfig;
use crate::fwcfg::FwCfgDevice;
use crate::fwcfg::FwCfgModel;
use crate::pci::PciBus;
use crate::pci::PciBusModel;
use crate::rtc::RtcDevice;
use crate::rtc::RtcModel;
use crate::AxVmDeviceError;

verus! {

/// Mathematical state of one registered device.
#[verifier::ext_equal]
pub ghost enum DeviceModel {
    /// The firmware configuration device.
    FwCfg(FwCfgModel),
    /// The RTC/CMOS device.
    Rtc(RtcModel),
    /// The PCI configuration device.
    Pci(PciBusModel),
}

impl DeviceModel {
    /// Validity of the wrapped model.
    pub open spec fn wf(self) -> bool {
        match self {
            DeviceModel::FwCfg(m) => m.wf(),
            DeviceModel::Rtc(m) => m.wf(),
            DeviceModel::Pci(m) => m.wf(),
        }
    }

    /// Low end of the device's half-open address range.
    pub open spec fn range_lo(self) -> int {
        match self {
            DeviceModel::FwCfg(m) => m.base as int,
            DeviceModel::Rtc(m) => m.base as int,
            DeviceModel::Pci(m) => m.base as int,
        }
    }

    /// One past the high end of the device's half-open address range.
    pub open spec fn range_hi(self) -> int {
        match self {
            DeviceModel::FwCfg(m) => m.base + 2,
            DeviceModel::Rtc(m) => m.base + 2,
            DeviceModel::Pci(m) => m.base + 8,
        }
    }

    /// Whether the device's range contains `addr` (inclusive low, exclusive
    /// high).
    pub open spec fn contains(self, addr: usize) -> bool {
        self.range_lo() <= addr < self.range_hi()
    }

    /// Value returned by a read at `addr`, forwarded to the wrapped model.
    pub open spec fn spec_handle_read_val(self, addr: usize) -> usize {
        match self {
            DeviceModel::FwCfg(m) => m.spec_handle_read_val(addr),
            DeviceModel::Rtc(m) => m.spec_handle_read_val(addr),
            DeviceModel::Pci(m) => m.spec_handle_read_val(addr),
        }
    }

    /// Effect of a read at `addr`: only the firmware configuration device's
    /// cursor moves on a read.
    pub open spec fn spec_handle_read_state(self, addr: usize) -> DeviceModel {
        match self {
            DeviceModel::FwCfg(m) => DeviceModel::FwCfg(m.spec_handle_read_state(addr)),
            DeviceModel::Rtc(m) => DeviceModel::Rtc(m),
            DeviceModel::Pci(m) => DeviceModel::Pci(m),
        }
    }

    /// Effect of a write at `addr`, forwarded to the wrapped model.
    pub open spec fn spec_handle_write_state(self, addr: usize, val: usize) -> DeviceModel {
        match self {
            DeviceModel::FwCfg(m) => DeviceModel::FwCfg(m.spec_handle_write_state(addr, val)),
            DeviceModel::Rtc(m) => DeviceModel::Rtc(m.spec_handle_write_state(addr, val)),
            DeviceModel::Pci(m) => DeviceModel::Pci(m.spec_handle_write_state(addr, val)),
        }
    }
}

/// One registered device: the closed set of device models this layer offers.
pub enum EmuDevice {
    /// The firmware configuration device.
    FwCfg(FwCfgDevice),
    /// The RTC/CMOS device.
    Rtc(RtcDevice),
    /// The PCI configuration device.
    Pci(PciBus),
}

impl View for EmuDevice {
    type V = DeviceModel;

    open spec fn view(&self) -> DeviceModel {
        match self {
            EmuDevice::FwCfg(d) => DeviceModel::FwCfg(d@),
            EmuDevice::Rtc(d) => DeviceModel::Rtc(d@),
            EmuDevice::Pci(d) => DeviceModel::Pci(d@),
        }
    }
}

impl EmuDevice {
    /// Half-open guest address range claimed by the device.
    pub fn address_range(&self) -> (r: (usize, usize))
        requires
            self@.wf(),
        ensures
            r.0 == self@.range_lo(),
            r.1 == self@.range_hi(),
    {
        match self {
            EmuDevice::FwCfg(d) => d.address_range(),
            EmuDevice::Rtc(d) => d.address_range(),
            EmuDevice::Pci(d) => d.address_range(),
        }
    }

    /// Forwards a read to the device. Never fails.
    pub fn handle_read(&mut self, addr: usize, width: usize) -> (r: Result<usize, AxVmDeviceError>)
        requires
            old(self)@.wf(),
        ensures
            final(self)@ == old(self)@.spec_handle_read_state(addr),
            r == Ok::<usize, AxVmDeviceError>(old(self)@.spec_handle_read_val(addr)),
            final(self)@.wf(),
    {
        match self {
            EmuDevice::FwCfg(d) => d.handle_read(addr, width),
            EmuDevice::Rtc(d) => d.handle_read(addr, width),
            EmuDevice::Pci(d) => d.handle_read(addr, width),
        }
    }

    /// Forwards a write to the device.
    pub fn handle_write(&mut self, addr: usize, width: usize, val: usize)
        requires
            old(self)@.wf(),
        ensures
            final(self)@ == old(self)@.spec_handle_write_state(addr, val),
            final(self)@.wf(),
    {
        match self {
            EmuDevice::FwCfg(d) => d.handle_write(addr, width, val),
            EmuDevice::Rtc(d) => d.handle_write(addr, width, val),
            EmuDevice::Pci(d) => d.handle_write(addr, width, val),
        }
    }
}

/// Index of the first device whose range contains `addr`, in registration
/// order; overlapping ranges resolve to the first-registered match.
pub open spec fn first_match(devs: Seq<DeviceModel>, addr: usize) -> Option<int>
    decreases devs.len(),
{
    if devs.len() == 0 {
        None
    } else if devs[0].contains(addr) {
        Some(0)
    } else {
        match first_match(devs.drop_first(), addr) {
            Some(i) => Some(i + 1),
            None => None,
        }
    }
}

/// What dispatch resolution means: for every address inside some registered
/// device's range, dispatch resolves to the first such device; for an address
/// in no device's range, it resolves to nothing.
pub proof fn lemma_first_match_props(devs: Seq<DeviceModel>, addr: usize)
    ensures
        match first_match(devs, addr) {
            Some(i) => 0 <= i < devs.len() && devs[i].contains(addr) && forall|j: int|
                0 <= j < i ==> !(#[trigger] devs[j]).contains(addr),
            None => forall|j: int| 0 <= j < devs.len() ==> !(#[trigger] devs[j]).contains(addr),
        },
    decreases devs.len(),
{
    if devs.len() > 0 && !devs[0].contains(addr) {
        let d = devs.drop_first();
        lemma_first_match_props(d, addr);
        match first_match(d, addr) {
            Some(ip) => {
                assert(d[ip] == devs[ip + 1]);
                assert forall|j: int| 0 <= j < ip + 1 implies !(#[trigger] devs[j]).contains(addr) by {
                    if j > 0 {
                        assert(d[j - 1] == devs[j]);
                    }
                }
            },
            None => {
                assert forall|j: int| 0 <= j < devs.len() implies !(#[trigger] devs[j]).contains(
                    addr,
                ) by {
                    if j > 0 {
                        assert(d[j - 1] == devs[j]);
                    }
                }
            },
        }
    }
}

/// A position that is the first to contain the address is the one dispatch
/// resolves to; if no position contains it, dispatch resolves to nothing.
pub proof fn lemma_first_match_at(devs: Seq<DeviceModel>, addr: usize, i: int)
    requires
        0 <= i <= devs.len(),
        forall|j: int| 0 <= j < i ==> !(#[trigger] devs[j]).contains(addr),
        i < devs.len() ==> devs[i].contains(addr),
    ensures
        if i < devs.len() {
            first_match(devs, addr) == Some(i)
        } else {
            first_match(devs, addr) is None
        },
    decreases devs.len(),
{
    if devs.len() == 0 {
    } else if devs[0].contains(addr) {
        assert(i == 0);
    } else {
        let d = devs.drop_first();
        assert(forall|j: int| 0 <= j < i - 1 ==> #[trigger] d[j] == devs[j + 1]);
        assert(i >= 1);
        lemma_first_match_at(d, addr, i - 1);
    }
}

/// All registered device models are valid.
pub open spec fn all_wf(devs: Seq<DeviceModel>) -> bool {
    forall|i: int| 0 <= i < devs.len() ==> (#[trigger] devs[i]).wf()
}

/// The devices registered at construction, in registration order.
pub open spec fn initial_devices() -> Seq<DeviceModel> {
    seq![
        DeviceModel::FwCfg(FwCfgModel::init()),
        DeviceModel::Rtc(RtcModel::init().spec_set_memory(0x4000000)),
        DeviceModel::Pci(PciBusModel::init()),
    ]
}

/// The devices a VM owns: an ordered collection, fixed after construction,
/// that dispatch scans in registration order.
pub struct AxVmDevices {
    /// The registered devices.
    pub emu_devices: Vec<EmuDevice>,
}

impl View for AxVmDevices {
    type V = Seq<DeviceModel>;

    open spec fn view(&self) -> Seq<DeviceModel> {
        self.emu_devices@.map_values(|d: EmuDevice| d@)
    }
}

impl AxVmDevices {
    /// Builds the registry from the configuration, registering the firmware
    /// configuration, RTC and PCI devices.
    pub fn new(config: AxVmDeviceConfig) -> (r: AxVmDevices)
        ensures
            r@ == initial_devices(),
            all_wf(r@),
    {
        let mut this = AxVmDevices { emu_devices: Vec::new() };
        Self::init(&mut this, &config.emu_configs);
        this
    }

    /// Registers each configured device; the three built-in models are always
    /// registered.
    fn init(this: &mut AxVmDevices, _emu_configs: &Vec<EmuDeviceConfig>)
        requires
            old(this).emu_devices@.len() == 0,
        ensures
            final(this)@ == initial_devices(),
            all_wf(final(this)@),
    {
        this.emu_devices.push(EmuDevice::FwCfg(FwCfgDevice::new()));
        this.emu_devices.push(EmuDevice::Rtc(RtcDevice::new()));
        this.emu_devices.push(EmuDevice::Pci(PciBus::new()));
        proof {
            assert(this@ =~= initial_devices());
        }
    }

    /// Index of the first registered device whose range contains `addr`.
    pub fn find_dev(&self, addr: usize) -> (r: Option<usize>)
        requires
            all_wf(self@),
        ensures
            match r {
                Some(i) => i < self.emu_devices@.len() && Some(i as int) == first_match(
                    self@,
                    addr,
                ),
                None => first_match(self@, addr) is None,
            },
    {
        let n = self.emu_devices.len();
        let mut i: usize = 0;
        while i < n
            invariant
                i <= n,
                n == self@.len(),
                all_wf(self@),
                forall|j: int| 0 <= j < i ==> !(#[trigger] self@[j]).contains(addr),
            decreases n - i,
        {
            proof {
                assert(self@[i as int].wf());
            }
            let (lo, hi) = self.emu_devices[i].address_range();
            if lo <= addr && addr < hi {
                proof {
                    lemma_first_match_at(self@, addr, i as int);
                }
                return Some(i);
            }
            i += 1;
        }
        proof {
            lemma_first_match_at(self@, addr, n as int);
        }
        None
    }

    /// Routes an MMIO read to the first device whose range contains `addr`
    /// and returns what the device read; fails with `DeviceNotFound` when no
    /// device claims the address.
    pub fn handle_mmio_read(&mut self, addr: usize, width: usize) -> (r: Result<
        usize,
        AxVmDeviceError,
    >)
        requires
            all_wf(old(self)@),
        ensures
            match first_match(old(self)@, addr) {
                Some(i) => final(self)@ == old(self)@.update(
                    i,
                    old(self)@[i].spec_handle_read_state(addr),
                ) && r == Ok::<usize, AxVmDeviceError>(old(self)@[i].spec_handle_read_val(addr)),
                None => r == Err::<usize, AxVmDeviceError>(AxVmDeviceError::DeviceNotFound(addr))
                    && final(self)@ == old(self)@,
            },
            all_wf(final(self)@),
    {
        let ghost m0 = self@;
        match self.find_dev(addr) {
            Some(i) => {
                let ghost pre = self@;
                let mut dev = self.emu_devices.remove(i);
                proof {
                    pre.remove_ensures(i as int);
                    assert(dev@ == pre[i as int]);
                }
                let r = dev.handle_read(addr, width);
                self.emu_devices.insert(i, dev);
                proof {
                    pre.remove(i as int).insert_ensures(i as int, dev@);
                    assert(self@ =~= m0.update(i as int, m0[i as int].spec_handle_read_state(addr)));
                    assert(all_wf(self@)) by {
                        assert(forall|j: int| 0 <= j < self@.len() && j != i
                            ==> (#[trigger] self@[j]) == m0[j]);
                    }
                }
                r
            },
            None => Err(AxVmDeviceError::DeviceNotFound(addr)),
        }
    }

    /// Routes an MMIO write to the first device whose range contains `addr`;
    /// fails with `DeviceNotFound` when no device claims the address.
    pub fn handle_mmio_write(&mut self, addr: usize, width: usize, val: usize) -> (r: Result<
        (),
        AxVmDeviceError,
    >)
        requires
            all_wf(old(self)@),
        ensures
            match first_match(old(self)@, addr) {
                Some(i) => final(self)@ == old(self)@.update(
                    i,
                    old(self)@[i].spec_handle_write_state(addr, val),
                ) && r == Ok::<(), AxVmDeviceError>(()),
                None => r == Err::<(), AxVmDeviceError>(AxVmDeviceError::DeviceNotFound(addr))
                    && final(self)@ == old(self)@,
            },
            all_wf(final(self)@),
    {
        let ghost m0 = self@;
        match self.find_dev(addr) {
            Some(i) => {
                let ghost pre = self@;
                let mut dev = self.emu_devices.remove(i);
                proof {
                    pre.remove_ensures(i as int);
                    assert(dev@ == pre[i as int]);
                }
                dev.handle_write(addr, width, val);
                self.emu_devices.insert(i, dev);
                proof {
                    pre.remove(i as int).insert_ensures(i as int, dev@);
                    assert(self@ =~= m0.update(
                        i as int,
                        m0[i as int].spec_handle_write_state(addr, val),
                    ));
                    assert(all_wf(self@)) by {
                        assert(forall|j: int| 0 <= j < self@.len() && j != i
                            ==> (#[trigger] self@[j]) == m0[j]);
                    }
                }
                Ok(())
            },
            None => Err(AxVmDeviceError::DeviceNotFound(addr)),
        }
    }

    /// Routes a port read: ports share the dispatch algorithm and address
    /// space with MMIO, after widening the 16-bit port number.
    pub fn handle_port_read(&mut self, port: u16, width: usize) -> (r: Result<
        usize,
        AxVmDeviceError,
    >)
        requires
            all_wf(old(self)@),
        ensures
            match first_match(old(self)@, port as usize) {
                Some(i) => final(self)@ == old(self)@.update(
                    i,
                    old(self)@[i].spec_handle_read_state(port as usize),
                ) && r == Ok::<usize, AxVmDeviceError>(
                    old(self)@[i].spec_handle_read_val(port as usize),
                ),
                None => r == Err::<usize, AxVmDeviceError>(
                    AxVmDeviceError::DeviceNotFound(port as usize),
                ) && final(self)@ == old(self)@,
            },
            all_wf(final(self)@),
    {
        let addr = port as usize;
        self.handle_mmio_read(addr, width)
    }

    /// Routes a port write: ports share the dispatch algorithm and address
    /// space with MMIO, after widening the 16-bit port number.
    pub fn handle_port_write(&mut self, port: u16, width: usize, val: usize) -> (r: Result<
        (),
        AxVmDeviceError,
    >)
        requires
            all_wf(old(self)@),
        ensures
            match first_match(old(self)@, port as usize) {
                Some(i) => final(self)@ == old(self)@.update(
                    i,
                    old(self)@[i].spec_handle_write_state(port as usize, val),
                ) && r == Ok::<(), AxVmDeviceError>(()),
                None => r == Err::<(), AxVmDeviceError>(
                    AxVmDeviceError::DeviceNotFound(port as usize),
                ) && final(self)@ == old(self)@,
            },
            all_wf(final(self)@),
    {
        let addr = port as usize;
        self.handle_mmio_write(addr, width, val)
    }
}

} // verus!
