use axdevice::fwcfg::{FwCfgDevice, FwCfgEntryType, FwCfgFile};
use axdevice::AxVmDeviceError;

#[test]
fn entry_round_trip() {
    let mut dev = FwCfgDevice::new();
    dev.add_entry(FwCfgEntryType::Id, vec![1u8, 2, 3]);
    dev.select_entry(0x1);
    assert_eq!(dev.get_data(), Ok(1));
    assert_eq!(dev.get_data(), Ok(2));
    assert_eq!(dev.get_data(), Ok(3));
    // Past the end of the buffer reads yield zero, without error.
    assert_eq!(dev.get_data(), Ok(0));
    assert_eq!(dev.get_data(), Ok(0));
}

#[test]
fn entry_round_trip_arch_local() {
    // The e820 selector carries the arch-local flag; masking at read time
    // still reaches the entry it addressed.
    let mut dev = FwCfgDevice::new();
    dev.add_entry(FwCfgEntryType::E820Table, vec![0xaa, 0xbb]);
    dev.select_entry(0x8003);
    assert_eq!(dev.get_data(), Ok(0xaa));
    assert_eq!(dev.get_data(), Ok(0xbb));
    assert_eq!(dev.get_data(), Ok(0));
}

#[test]
fn signature_entry() {
    let mut dev = FwCfgDevice::new();
    dev.select_entry(0x0);
    assert_eq!(dev.get_data(), Ok(b'Q'));
    assert_eq!(dev.get_data(), Ok(b'E'));
    assert_eq!(dev.get_data(), Ok(b'M'));
    assert_eq!(dev.get_data(), Ok(b'U'));
    assert_eq!(dev.get_data(), Ok(0));
}

#[test]
fn selector_flag_bits_masked_at_read() {
    // A selector carrying the write-channel flag still reads the masked slot.
    let mut dev = FwCfgDevice::new();
    dev.select_entry(0x4000);
    assert_eq!(dev.get_data(), Ok(b'Q'));
}

#[test]
fn invalid_selector_reads_zero() {
    let mut dev = FwCfgDevice::new();
    dev.select_entry(0x50);
    assert_eq!(dev.get_data(), Ok(0));
    assert_eq!(dev.get_data(), Ok(0));
}

#[test]
fn empty_entry_reads_zero() {
    let mut dev = FwCfgDevice::new();
    dev.add_entry(FwCfgEntryType::Id, vec![]);
    dev.select_entry(0x1);
    assert_eq!(dev.get_data(), Ok(0));
    assert_eq!(dev.get_data(), Ok(0));
}

#[test]
fn add_file_renumbers_upward() {
    let mut dev = FwCfgDevice::new();
    assert_eq!(dev.add_file(b"b.bin", vec![1], false), Ok(()));
    assert_eq!(dev.add_file(b"a.bin", vec![2], false), Ok(()));
    // a.bin sorts first and takes the first file selector; b.bin is
    // renumbered upward; the boot file sorts last.
    assert_eq!(&dev.files[0].name[..5], b"a.bin");
    assert_eq!(dev.files[0].select, 0x20);
    assert_eq!(&dev.files[1].name[..5], b"b.bin");
    assert_eq!(dev.files[1].select, 0x21);
    assert_eq!(&dev.files[2].name[..21], b"genroms/multiboot.bin");
    assert_eq!(dev.files[2].select, 0x22);
    // The entry table follows the directory in lock-step.
    dev.select_entry(0x20);
    assert_eq!(dev.get_data(), Ok(2));
    dev.select_entry(0x21);
    assert_eq!(dev.get_data(), Ok(1));
    dev.select_entry(0x22);
    assert_eq!(dev.get_data(), Ok(b'H'));
}

#[test]
fn file_dir_entry_is_synthesized() {
    // After construction one file is present; the directory entry serializes
    // a big-endian count and one 64-byte record.
    let mut dev = FwCfgDevice::new();
    dev.select_entry(0x19);
    // count = 1, big-endian.
    assert_eq!(dev.get_data(), Ok(0));
    assert_eq!(dev.get_data(), Ok(0));
    assert_eq!(dev.get_data(), Ok(0));
    assert_eq!(dev.get_data(), Ok(1));
    // record: size = 5, big-endian.
    assert_eq!(dev.get_data(), Ok(0));
    assert_eq!(dev.get_data(), Ok(0));
    assert_eq!(dev.get_data(), Ok(0));
    assert_eq!(dev.get_data(), Ok(5));
    // selector = 0x20, big-endian.
    assert_eq!(dev.get_data(), Ok(0));
    assert_eq!(dev.get_data(), Ok(0x20));
    // reserved = 0.
    assert_eq!(dev.get_data(), Ok(0));
    assert_eq!(dev.get_data(), Ok(0));
    // name, zero-padded.
    assert_eq!(dev.get_data(), Ok(b'g'));
    assert_eq!(dev.get_data(), Ok(b'e'));
}

#[test]
fn add_file_when_full_is_refused() {
    let mut dev = FwCfgDevice::new();
    // One file is installed at construction; fill the remaining 31 slots.
    for i in 0..31u32 {
        let name = format!("file{:02}.bin", i);
        assert_eq!(dev.add_file(name.as_bytes(), vec![0], false), Ok(()));
    }
    assert_eq!(
        dev.add_file(b"one-too-many.bin", vec![0], false),
        Err(AxVmDeviceError::EntryOutOfRange)
    );
}

#[test]
fn file_record_new_pads_name() {
    let f = FwCfgFile::new(5, 0x20, b"abc");
    assert_eq!(f.size, 5);
    assert_eq!(f.select, 0x20);
    assert_eq!(f.name.len(), 56);
    assert_eq!(&f.name[..3], b"abc");
    assert_eq!(f.name[3], 0);
    assert_eq!(f.name[55], 0);
}

#[test]
fn file_record_serializes_big_endian() {
    let f = FwCfgFile::new(0x01020304, 0x0021, b"x");
    let bytes = f.as_be_bytes();
    assert_eq!(bytes.len(), 64);
    assert_eq!(&bytes[..4], &[1, 2, 3, 4]);
    assert_eq!(&bytes[4..6], &[0x00, 0x21]);
    assert_eq!(&bytes[6..8], &[0, 0]);
    assert_eq!(bytes[8], b'x');
    assert_eq!(bytes[9], 0);
}

#[test]
fn register_pair_reads_and_writes() {
    let mut dev = FwCfgDevice::new();
    let (lo, hi) = dev.address_range();
    assert_eq!(lo, 0x510);
    assert_eq!(hi, 0x512);
    // A write at the selector register selects; a read at the data register
    // reads; a read at the selector register yields zero.
    dev.handle_write(0x510, 2, 0x0);
    assert_eq!(dev.handle_read(0x510, 1), Ok(0));
    assert_eq!(dev.handle_read(0x511, 1), Ok(b'Q' as usize));
    assert_eq!(dev.handle_read(0x511, 1), Ok(b'E' as usize));
    // A write anywhere else in the range is ignored.
    dev.handle_write(0x511, 1, 0x7);
    assert_eq!(dev.handle_read(0x511, 1), Ok(b'M' as usize));
}
