//! RTC/CMOS device model: an index/data register pair over a 128-byte CMOS
//! bank whose memory-size bytes are derived from a configured memory size.

use vstd::prelude::*;

use crate::AxVmDeviceError;

verus! {

/// Base port of the index/data register pair.
pub const RTC_IO_BASE: usize = 0x0070;

/// Bit 7 of a value written to the index register masks NMIs; it is stripped
/// before the index is stored.
pub const NMI_DISABLE_BIT: u8 = 0x80;

/// CMOS indices holding the extended-memory size (low, high byte).
pub const CMOS_MEM_EXTMEM_LO: u8 = 0x30;
/// High byte of the first extended-memory pair.
pub const CMOS_MEM_EXTMEM_HI: u8 = 0x31;
/// CMOS indices holding the second extended-memory size (low, high byte).
pub const CMOS_MEM_EXTMEM2_LO: u8 = 0x34;
/// High byte of the second extended-memory pair.
pub const CMOS_MEM_EXTMEM2_HI: u8 = 0x35;

/// Mathematical state of the RTC/CMOS device.
#[verifier::ext_equal]
pub ghost struct RtcModel {
    /// Guest address of the index register; the data register is at `base + 1`.
    pub base: usize,
    /// The 128-byte CMOS bank.
    pub cmos_data: Seq<u8>,
    /// The memory size most recently configured.
    pub mem_size: u64,
    /// The currently selected CMOS index, always below 128.
    pub cur_index: u8,
}

impl RtcModel {
    /// Validity of the model: a full bank and a register pair that fits in the
    /// address space.
    pub open spec fn wf(self) -> bool {
        &&& self.cmos_data.len() == 128
        &&& self.base + 2 <= usize::MAX
    }

    /// State as constructed, before any memory size is set.
    pub open spec fn init() -> RtcModel {
        RtcModel {
            base: RTC_IO_BASE,
            cmos_data: Seq::new(128, |i: int| 0u8),
            mem_size: 0,
            cur_index: 0,
        }
    }

    /// Effect of storing an index: bit 7 is stripped.
    pub open spec fn spec_select_index(self, index: u8) -> RtcModel {
        RtcModel { cur_index: index & !NMI_DISABLE_BIT, ..self }
    }

    /// Effect of configuring the memory size. Sizes in (1MiB, 64MiB] populate
    /// the first extended-memory pair; sizes above 64MiB populate only the
    /// second pair. The two branches are independent.
    pub open spec fn spec_set_memory(self, mem_size: u64) -> RtcModel {
        let with_size = RtcModel { mem_size: mem_size, ..self };
        if 0x100000 < mem_size && mem_size <= 0x4000000 {
            let ext = (mem_size - 0x100000) as u64;
            RtcModel {
                cmos_data: with_size.cmos_data
                    .update(CMOS_MEM_EXTMEM_LO as int, ((ext >> 10) & 0xff) as u8)
                    .update(CMOS_MEM_EXTMEM_HI as int, ((ext >> 18) & 0xff) as u8),
                ..with_size
            }
        } else if mem_size > 0x4000000 {
            let ext2 = (mem_size - 0x1000000) as u64;
            RtcModel {
                cmos_data: with_size.cmos_data
                    .update(CMOS_MEM_EXTMEM2_LO as int, ((ext2 >> 16) & 0xff) as u8)
                    .update(CMOS_MEM_EXTMEM2_HI as int, ((ext2 >> 24) & 0xff) as u8),
                ..with_size
            }
        } else {
            with_size
        }
    }

    /// Value of a data-register read: only the four extended-memory indices
    /// are wired to the bank; every other index reads as zero.
    pub open spec fn spec_get_data(self) -> u8 {
        if self.cur_index == CMOS_MEM_EXTMEM_LO || self.cur_index == CMOS_MEM_EXTMEM_HI
            || self.cur_index == CMOS_MEM_EXTMEM2_LO || self.cur_index == CMOS_MEM_EXTMEM2_HI {
            self.cmos_data[self.cur_index as int]
        } else {
            0
        }
    }

    /// Value returned by a read at `addr`: the data register yields
    /// `spec_get_data`, anything else in range yields zero.
    pub open spec fn spec_handle_read_val(self, addr: usize) -> usize {
        if addr == self.base + 1 {
            self.spec_get_data() as usize
        } else {
            0
        }
    }

    /// Effect of a write at `addr`: the index register selects, all other
    /// addresses are ignored.
    pub open spec fn spec_handle_write_state(self, addr: usize, val: usize) -> RtcModel {
        if addr == self.base {
            self.spec_select_index((val & 0xff) as u8)
        } else {
            self
        }
    }
}

/// RTC/CMOS device: a write-only index register at `base` and a read-only
/// data register at `base + 1`.
pub struct RtcDevice {
    /// Guest address of the index register.
    pub base: usize,
    /// The 128-byte CMOS bank.
    pub cmos_data: Vec<u8>,
    /// The memory size most recently configured.
    pub mem_size: u64,
    /// The currently selected CMOS index.
    pub cur_index: u8,
}

impl View for RtcDevice {
    type V = RtcModel;

    open spec fn view(&self) -> RtcModel {
        RtcModel {
            base: self.base,
            cmos_data: self.cmos_data@,
            mem_size: self.mem_size,
            cur_index: self.cur_index,
        }
    }
}

impl RtcDevice {
    /// Builds the device at its fixed base with 64MiB of memory configured.
    pub fn new() -> (r: RtcDevice)
        ensures
            r@ == RtcModel::init().spec_set_memory(0x4000000),
            r@.wf(),
    {
        let mut cmos: Vec<u8> = Vec::new();
        let mut i: usize = 0;
        while i < 128
            invariant
                i <= 128,
                cmos@.len() == i,
                forall|j: int| 0 <= j < i ==> cmos@[j] == 0u8,
            decreases 128 - i,
        {
            cmos.push(0u8);
            i += 1;
        }
        let mut rtc = RtcDevice {
            base: RTC_IO_BASE,
            cmos_data: cmos,
            mem_size: 0,
            cur_index: 0,
        };
        proof {
            assert(rtc@.cmos_data =~= RtcModel::init().cmos_data);
            assert(rtc@ =~= RtcModel::init());
        }
        rtc.set_memory(64 * 1024 * 1024);
        rtc
    }

    /// Encodes `mem_size` into the extended-memory bytes of the bank.
    pub fn set_memory(&mut self, mem_size: u64)
        requires
            old(self)@.wf(),
        ensures
            final(self)@ == old(self)@.spec_set_memory(mem_size),
            final(self)@.wf(),
    {
        self.mem_size = mem_size;

        let kb: u64 = 1024;
        let mb: u64 = 1024 * kb;

        if self.mem_size <= 64 * mb && self.mem_size > mb {
            let mem_ext = self.mem_size - mb;
            assert((mem_ext >> 10) & 0xff < 256) by (bit_vector);
            assert((mem_ext >> 18) & 0xff < 256) by (bit_vector);
            self.cmos_data.set(CMOS_MEM_EXTMEM_LO as usize, ((mem_ext >> 10) & 0xff) as u8);
            self.cmos_data.set(CMOS_MEM_EXTMEM_HI as usize, ((mem_ext >> 18) & 0xff) as u8);
        }

        if self.mem_size > 64 * mb {
            let mem_ext2 = self.mem_size - 16 * mb;
            assert((mem_ext2 >> 16) & 0xff < 256) by (bit_vector);
            assert((mem_ext2 >> 24) & 0xff < 256) by (bit_vector);
            self.cmos_data.set(CMOS_MEM_EXTMEM2_LO as usize, ((mem_ext2 >> 16) & 0xff) as u8);
            self.cmos_data.set(CMOS_MEM_EXTMEM2_HI as usize, ((mem_ext2 >> 24) & 0xff) as u8);
        }
    }

    /// Stores the index, with the NMI-mask bit stripped.
    pub fn select_index(&mut self, index: u8)
        ensures
            final(self)@ == old(self)@.spec_select_index(index),
    {
        let index = index & !NMI_DISABLE_BIT;
        self.cur_index = index;
    }

    /// Reads the byte selected by the current index; unwired indices read as
    /// zero. Never fails.
    pub fn get_data(&self) -> (r: Result<u8, AxVmDeviceError>)
        requires
            self@.wf(),
        ensures
            r == Ok::<u8, AxVmDeviceError>(self@.spec_get_data()),
    {
        let index = self.cur_index;
        if index == CMOS_MEM_EXTMEM_LO {
            Ok(self.cmos_data[CMOS_MEM_EXTMEM_LO as usize])
        } else if index == CMOS_MEM_EXTMEM_HI {
            Ok(self.cmos_data[CMOS_MEM_EXTMEM_HI as usize])
        } else if index == CMOS_MEM_EXTMEM2_LO {
            Ok(self.cmos_data[CMOS_MEM_EXTMEM2_LO as usize])
        } else if index == CMOS_MEM_EXTMEM2_HI {
            Ok(self.cmos_data[CMOS_MEM_EXTMEM2_HI as usize])
        } else {
            Ok(0)
        }
    }

    /// Half-open guest address range `[base, base + 2)` of the register pair.
    pub fn address_range(&self) -> (r: (usize, usize))
        requires
            self@.wf(),
        ensures
            r.0 == self@.base,
            r.1 == self@.base + 2,
    {
        (self.base, self.base + 2)
    }

    /// A read at the data register returns the selected byte; reads anywhere
    /// else in the range return zero. The state is unchanged.
    pub fn handle_read(&mut self, addr: usize, _width: usize) -> (r: Result<usize, AxVmDeviceError>)
        requires
            old(self)@.wf(),
        ensures
            final(self)@ == old(self)@,
            r == Ok::<usize, AxVmDeviceError>(old(self)@.spec_handle_read_val(addr)),
            final(self)@.wf(),
    {
        if addr == self.base + 1 {
            match self.get_data() {
                Ok(x) => Ok(x as usize),
                Err(e) => Err(e),
            }
        } else {
            Ok(0)
        }
    }

    /// A write at the index register selects an index; writes anywhere else
    /// in the range are ignored.
    pub fn handle_write(&mut self, addr: usize, _width: usize, val: usize)
        requires
            old(self)@.wf(),
        ensures
            final(self)@ == old(self)@.spec_handle_write_state(addr, val),
            final(self)@.wf(),
    {
        if addr == self.base {
            assert(val & 0xff < 256) by (bit_vector);
            self.select_index((val & 0xff) as u8);
        }
    }
}

} // verus!
