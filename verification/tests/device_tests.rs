use axdevice::config::AxVmDeviceConfig;
use axdevice::device::AxVmDevices;
use axdevice::pci::{PciBus, PciDevice};
use axdevice::rtc::RtcDevice;
use axdevice::AxVmDeviceError;

fn registry() -> AxVmDevices {
    AxVmDevices::new(AxVmDeviceConfig::new(Vec::new()))
}

#[test]
fn dispatch_resolves_to_owning_device() {
    let devices = registry();
    // Firmware configuration at [0x510, 0x512).
    assert_eq!(devices.find_dev(0x510), Some(0));
    assert_eq!(devices.find_dev(0x511), Some(0));
    // RTC at [0x70, 0x72).
    assert_eq!(devices.find_dev(0x70), Some(1));
    assert_eq!(devices.find_dev(0x71), Some(1));
    // PCI at [0xcf8, 0xd00).
    assert_eq!(devices.find_dev(0xcf8), Some(2));
    assert_eq!(devices.find_dev(0xcff), Some(2));
}

#[test]
fn dispatch_miss_is_an_error() {
    let mut devices = registry();
    assert_eq!(devices.find_dev(0x512), None);
    assert_eq!(devices.find_dev(0x6f), None);
    assert_eq!(devices.find_dev(0xd00), None);
    assert_eq!(
        devices.handle_mmio_read(0x9999, 4),
        Err(AxVmDeviceError::DeviceNotFound(0x9999))
    );
    assert_eq!(
        devices.handle_mmio_write(0x9999, 4, 0),
        Err(AxVmDeviceError::DeviceNotFound(0x9999))
    );
    assert_eq!(
        devices.handle_port_read(0x72, 1),
        Err(AxVmDeviceError::DeviceNotFound(0x72))
    );
    assert_eq!(
        devices.handle_port_write(0x72, 1, 0),
        Err(AxVmDeviceError::DeviceNotFound(0x72))
    );
}

#[test]
fn firmware_config_via_ports() {
    let mut devices = registry();
    assert_eq!(devices.handle_port_write(0x510, 2, 0x0), Ok(()));
    assert_eq!(devices.handle_port_read(0x511, 1), Ok(b'Q' as usize));
    assert_eq!(devices.handle_port_read(0x511, 1), Ok(b'E' as usize));
    assert_eq!(devices.handle_port_read(0x511, 1), Ok(b'M' as usize));
    assert_eq!(devices.handle_port_read(0x511, 1), Ok(b'U' as usize));
    assert_eq!(devices.handle_port_read(0x511, 1), Ok(0));
}

#[test]
fn rtc_memory_size_bytes() {
    // The registry's RTC is configured with 64MiB at construction.
    let mut devices = registry();
    let ext = (64u64 * 1024 * 1024 - 1024 * 1024) as usize;
    assert_eq!(devices.handle_port_write(0x70, 1, 0x30), Ok(()));
    assert_eq!(devices.handle_port_read(0x71, 1), Ok((ext >> 10) & 0xff));
    assert_eq!(devices.handle_port_write(0x70, 1, 0x31), Ok(()));
    assert_eq!(devices.handle_port_read(0x71, 1), Ok((ext >> 18) & 0xff));
    // An unmapped index reads as zero.
    assert_eq!(devices.handle_port_write(0x70, 1, 0x50), Ok(()));
    assert_eq!(devices.handle_port_read(0x71, 1), Ok(0));
}

#[test]
fn rtc_memory_encoding_exact() {
    let mut rtc = RtcDevice::new();
    // 64MiB - 1MiB = 66060288: bits 17..10 are zero, bits 25..18 are 0xfc.
    rtc.select_index(0x30);
    assert_eq!(rtc.get_data(), Ok(0x00));
    rtc.select_index(0x31);
    assert_eq!(rtc.get_data(), Ok(0xfc));
    // Sizes above 64MiB populate only the second pair.
    rtc.set_memory(128 * 1024 * 1024);
    rtc.select_index(0x34);
    assert_eq!(rtc.get_data(), Ok(0x00));
    rtc.select_index(0x35);
    assert_eq!(rtc.get_data(), Ok(0x07));
    // The first pair keeps its bytes from the earlier configuration.
    rtc.select_index(0x31);
    assert_eq!(rtc.get_data(), Ok(0xfc));
}

#[test]
fn rtc_nmi_bit_is_stripped() {
    let mut rtc = RtcDevice::new();
    rtc.select_index(0xb1);
    assert_eq!(rtc.get_data(), Ok(0xfc));
}

#[test]
fn rtc_register_pair() {
    let mut rtc = RtcDevice::new();
    let (lo, hi) = rtc.address_range();
    assert_eq!(lo, 0x70);
    assert_eq!(hi, 0x72);
    rtc.handle_write(0x70, 1, 0x31);
    assert_eq!(rtc.handle_read(0x71, 1), Ok(0xfc));
    // A read at the index register yields zero.
    assert_eq!(rtc.handle_read(0x70, 1), Ok(0));
}

#[test]
fn pci_vendor_device_readback() {
    // Address bus 0, device 1, offset 0; the built-in display function
    // answers with vendor and device identifiers packed little-end first.
    let mut devices = registry();
    assert_eq!(devices.handle_port_write(0xcf8, 4, 0x8000_0800), Ok(()));
    assert_eq!(devices.handle_port_read(0xcfc, 4), Ok(0x1234_8086));
}

#[test]
fn pci_bar_round_trip() {
    let mut devices = registry();
    // Offset 0x10 of bus 0, device 1: the first Base Address Register.
    assert_eq!(devices.handle_port_write(0xcf8, 4, 0x8000_0810), Ok(()));
    assert_eq!(devices.handle_port_write(0xcfc, 4, 0xdead_beef), Ok(()));
    assert_eq!(devices.handle_port_read(0xcfc, 4), Ok(0xdead_beef));
}

#[test]
fn pci_config_address_round_trip() {
    let mut devices = registry();
    assert_eq!(devices.handle_port_write(0xcf8, 4, 0x1234_5678), Ok(()));
    assert_eq!(devices.handle_port_read(0xcf8, 4), Ok(0x1234_5678));
    assert_eq!(devices.handle_port_write(0xcf8, 4, 0xffff_ffff), Ok(()));
    assert_eq!(devices.handle_port_read(0xcf8, 4), Ok(0xffff_ffff));
}

#[test]
fn pci_class_and_revision_fields() {
    let mut bus = PciBus::new();
    // Bus 0, device 0, offset 8: class 0x02, subclass 0, prog-if 0.
    bus.set_config_address(0x8000_0008);
    assert_eq!(bus.read_config(), 0x0000_0002);
    // Offset 0xc: revision 1.
    bus.set_config_address(0x8000_000c);
    assert_eq!(bus.read_config(), 0x0000_0001);
    // Offsets backed by no field read as zero.
    bus.set_config_address(0x8000_0004);
    assert_eq!(bus.read_config(), 0);
    bus.set_config_address(0x8000_0030);
    assert_eq!(bus.read_config(), 0);
}

#[test]
fn pci_field_writes() {
    let mut bus = PciBus::new();
    bus.set_config_address(0x8000_0000);
    bus.write_config(0xabcd_1001);
    assert_eq!(bus.read_config(), 0xabcd_1001);
    bus.set_config_address(0x8000_0008);
    bus.write_config(0x0030_2001);
    assert_eq!(bus.read_config(), 0x0030_2001);
    bus.set_config_address(0x8000_000c);
    bus.write_config(0xffff_ff42);
    assert_eq!(bus.read_config(), 0x0000_0042);
}

#[test]
fn pci_register_function_replaces_equal_key() {
    let mut bus = PciBus::new();
    let dev = PciDevice {
        vendor_id: 0x8086,
        device_id: 0x1234,
        class_code: 0x00,
        subclass: 0x00,
        prog_if: 0x00,
        revision_id: 0x00,
        bar: Vec::new(),
    };
    // Registering under an already-taken key replaces that slot.
    bus.add_device(0, 1, 0, dev);
    bus.set_config_address(0x8000_0800);
    assert_eq!(bus.read_config(), 0x1234_8086);
    // The replacement has no BARs: the BAR window reads as zero now.
    bus.set_config_address(0x8000_0810);
    assert_eq!(bus.read_config(), 0);
}

#[test]
fn pci_missing_device_reads_zero() {
    let mut bus = PciBus::new();
    // Bus 3 has no device registered; reads yield zero, writes are ignored.
    bus.set_config_address(0x8003_0000);
    assert_eq!(bus.read_config(), 0);
    bus.write_config(0x1234_5678);
    assert_eq!(bus.read_config(), 0);
}

#[test]
fn pci_bar_out_of_range_reads_zero() {
    let mut bus = PciBus::new();
    // The built-in functions have two BARs; offset 0x18 addresses a third.
    bus.set_config_address(0x8000_0818);
    assert_eq!(bus.read_config(), 0);
    bus.write_config(0x5555_5555);
    assert_eq!(bus.read_config(), 0);
}

#[test]
fn reads_inside_range_off_register_yield_zero() {
    let mut devices = registry();
    // PCI claims [0xcf8, 0xd00) but only 0xcf8 and 0xcfc are registers.
    assert_eq!(devices.handle_port_read(0xcfa, 2), Ok(0));
    assert_eq!(devices.handle_port_write(0xcfa, 2, 0x77), Ok(()));
    assert_eq!(devices.handle_port_read(0xcfa, 2), Ok(0));
}
