//! Firmware configuration device model: a selector/data register pair over a
//! table of byte buffers and a synthesized, name-sorted file directory.

use vstd::prelude::*;

use crate::AxVmDeviceError;

verus! {

/// Base port: selector register at `base`, data register at `base + 1`.
pub const FW_CFG_IO_BASE: usize = 0x510;

/// Number of file slots in the entry table.
pub const FW_CFG_FILE_SLOTS_DFLT: u16 = 0x20;
/// Selector of the first file slot.
pub const FW_CFG_FILE_FIRST: u16 = 0x20;
/// One past the last valid selector: `FW_CFG_FILE_FIRST + FW_CFG_FILE_SLOTS_DFLT`.
pub const FW_CFG_MAX_ENTRY: u16 = FW_CFG_FILE_FIRST + FW_CFG_FILE_SLOTS_DFLT;
/// Sentinel stored in the cursor when an out-of-range selector is written.
pub const FW_CFG_INVALID: u16 = 0xffff;

/// Selector flag requesting the write channel.
pub const FW_CFG_WRITE_CHANNEL: u16 = 0x4000;
/// Selector flag for architecture-local entries.
pub const FW_CFG_ARCH_LOCAL: u16 = 0x8000;
/// Mask stripping the two flag bits off a selector before it indexes the table.
pub const FW_CFG_ENTRY_MASK: u16 = 0x3fff;

/// Length in bytes of a file name inside a directory record.
pub const FW_CFG_FILE_NAME_LEN: usize = 56;

/// Strict lexicographic byte order, as a comparison of byte sequences: a
/// proper prefix sorts before its extensions.
pub open spec fn lex_lt(a: Seq<u8>, b: Seq<u8>) -> bool
    decreases a.len(),
{
    if b.len() == 0 {
        false
    } else if a.len() == 0 {
        true
    } else if a[0] < b[0] {
        true
    } else if a[0] > b[0] {
        false
    } else {
        lex_lt(a.drop_first(), b.drop_first())
    }
}

/// The two big-endian bytes of a 16-bit value.
pub open spec fn be16(x: u16) -> Seq<u8> {
    seq![((x >> 8) & 0xff) as u8, (x & 0xff) as u8]
}

/// The four big-endian bytes of a 32-bit value.
pub open spec fn be32(x: u32) -> Seq<u8> {
    seq![
        ((x >> 24) & 0xff) as u8,
        ((x >> 16) & 0xff) as u8,
        ((x >> 8) & 0xff) as u8,
        (x & 0xff) as u8,
    ]
}

/// Strict lexicographic order is transitive across a non-strict bound: what
/// sorts below `b` also sorts below everything `b` sorts no higher than.
pub proof fn lemma_lex_lt_trans_le(a: Seq<u8>, b: Seq<u8>, c: Seq<u8>)
    requires
        lex_lt(a, b),
        !lex_lt(c, b),
    ensures
        lex_lt(a, c),
    decreases a.len(),
{
    if a.len() == 0 {
    } else if a[0] < b[0] {
    } else {
        if c[0] == b[0] {
            lemma_lex_lt_trans_le(a.drop_first(), b.drop_first(), c.drop_first());
        }
    }
}

/// Mathematical form of one slot of the entry table.
#[verifier::ext_equal]
pub ghost struct FwCfgEntryModel {
    /// The slot's byte buffer.
    pub data: Seq<u8>,
    /// Whether guest writes to the slot are permitted.
    pub allow_write: bool,
}

/// Mathematical form of one file directory record.
#[verifier::ext_equal]
pub ghost struct FwCfgFileModel {
    /// Size in bytes of the file's entry buffer.
    pub size: u32,
    /// Selector of the entry slot holding the file's bytes.
    pub select: u16,
    /// Always zero on the wire.
    pub reserved: u16,
    /// The file name, zero-padded to exactly 56 bytes.
    pub name: Seq<u8>,
}

/// A name truncated or zero-padded to exactly `k` bytes.
pub open spec fn pad_to(name: Seq<u8>, k: nat) -> Seq<u8> {
    Seq::new(k, |i: int| if i < name.len() { name[i] } else { 0u8 })
}

/// A name as it is stored in a directory record: truncated or zero-padded to
/// exactly 56 bytes.
pub open spec fn padded_name(name: Seq<u8>) -> Seq<u8> {
    pad_to(name, FW_CFG_FILE_NAME_LEN as nat)
}

/// Nothing sorts strictly below itself.
pub proof fn lemma_lex_lt_irrefl(a: Seq<u8>)
    ensures
        !lex_lt(a, a),
    decreases a.len(),
{
    if a.len() > 0 {
        lemma_lex_lt_irrefl(a.drop_first());
    }
}

/// Padding keeps a name at or above what it already dominated: a stored name
/// that sorts no higher than the raw name sorts no higher than its padding.
proof fn lemma_pad_keeps_ge(raw: Seq<u8>, s: Seq<u8>, k: nat)
    requires
        s.len() == k,
        !lex_lt(raw, s),
    ensures
        !lex_lt(pad_to(raw, k), s),
    decreases k,
{
    if k > 0 {
        assert(raw.len() > 0);
        let pad = pad_to(raw, k);
        assert(pad[0] == raw[0]);
        if raw[0] == s[0] {
            assert(!lex_lt(raw.drop_first(), s.drop_first()));
            lemma_pad_keeps_ge(raw.drop_first(), s.drop_first(), (k - 1) as nat);
            assert(pad.drop_first() =~= pad_to(raw.drop_first(), (k - 1) as nat));
        }
    }
}

/// Padding keeps a name at or below what already dominated it: a stored name
/// that the raw name sorts below sorts no lower than the padding.
proof fn lemma_pad_keeps_le(raw: Seq<u8>, s: Seq<u8>, k: nat)
    requires
        s.len() == k,
        lex_lt(raw, s) || raw.len() == 0,
    ensures
        !lex_lt(s, pad_to(raw, k)),
    decreases k,
{
    if k > 0 {
        let pad = pad_to(raw, k);
        if raw.len() == 0 {
            assert(pad[0] == 0);
            if s[0] == 0 {
                lemma_pad_keeps_le(raw, s.drop_first(), (k - 1) as nat);
                assert(pad.drop_first() =~= pad_to(raw, (k - 1) as nat));
            }
        } else {
            assert(pad[0] == raw[0]);
            if raw[0] == s[0] {
                assert(lex_lt(raw.drop_first(), s.drop_first()));
                lemma_pad_keeps_le(raw.drop_first(), s.drop_first(), (k - 1) as nat);
                assert(pad.drop_first() =~= pad_to(raw.drop_first(), (k - 1) as nat));
            } else {
                assert(raw[0] < s[0]);
            }
        }
    }
}

/// The 64 wire bytes of one directory record: size, selector and reserved
/// field in big-endian order, then the padded name.
pub open spec fn file_record_bytes(f: FwCfgFileModel) -> Seq<u8> {
    be32(f.size) + be16(f.select) + be16(f.reserved) + f.name
}

/// The concatenated wire bytes of a sequence of directory records.
pub open spec fn dir_records_bytes(files: Seq<FwCfgFileModel>) -> Seq<u8>
    decreases files.len(),
{
    if files.len() == 0 {
        Seq::empty()
    } else {
        file_record_bytes(files[0]) + dir_records_bytes(files.drop_first())
    }
}

/// The serialized file directory: a big-endian record count followed by the
/// records in order.
pub open spec fn dir_bytes(files: Seq<FwCfgFileModel>) -> Seq<u8> {
    be32(files.len() as u32) + dir_records_bytes(files)
}

/// Compares two byte slices in strict lexicographic order.
pub fn lex_lt_bytes(a: &[u8], b: &[u8]) -> (r: bool)
    ensures
        r == lex_lt(a@, b@),
{
    proof {
        assert(a@.skip(0) =~= a@);
        assert(b@.skip(0) =~= b@);
    }
    let mut i: usize = 0;
    while i < a.len() && i < b.len()
        invariant
            i <= a@.len(),
            i <= b@.len(),
            lex_lt(a@, b@) == lex_lt(a@.skip(i as int), b@.skip(i as int)),
        decreases a@.len() - i,
    {
        let x = a[i];
        let y = b[i];
        if x < y {
            return true;
        }
        if x > y {
            return false;
        }
        proof {
            assert(a@.skip(i as int).drop_first() =~= a@.skip(i + 1));
            assert(b@.skip(i as int).drop_first() =~= b@.skip(i + 1));
        }
        i += 1;
    }
    a.len() < b.len()
}

/// Sequences of directory records serialize to 64 bytes per record.
pub proof fn lemma_dir_records_bytes_len(files: Seq<FwCfgFileModel>)
    requires
        forall|i: int| 0 <= i < files.len() ==> (#[trigger] files[i].name).len() == FW_CFG_FILE_NAME_LEN,
    ensures
        dir_records_bytes(files).len() == 64 * files.len(),
    decreases files.len(),
{
    if files.len() > 0 {
        lemma_dir_records_bytes_len(files.drop_first());
    }
}

/// Serializing one more record appends its 64 bytes to the serialization of
/// the records before it.
pub proof fn lemma_dir_records_bytes_take(files: Seq<FwCfgFileModel>, i: int)
    requires
        0 <= i < files.len(),
    ensures
        dir_records_bytes(files.take(i + 1))
            == dir_records_bytes(files.take(i)) + file_record_bytes(files[i]),
    decreases i,
{
    if i == 0 {
        assert(files.take(1)[0] == files[0]);
        assert(files.take(1).drop_first() =~= Seq::<FwCfgFileModel>::empty());
        assert(files.take(0) =~= Seq::<FwCfgFileModel>::empty());
        assert(dir_records_bytes(files.take(0)) + file_record_bytes(files[0])
            =~= file_record_bytes(files[0]) + dir_records_bytes(files.take(1).drop_first()));
    } else {
        let d = files.drop_first();
        lemma_dir_records_bytes_take(d, i - 1);
        assert(files.take(i + 1)[0] == files[0]);
        assert(files.take(i)[0] == files[0]);
        assert(files.take(i + 1).drop_first() =~= d.take(i));
        assert(files.take(i).drop_first() =~= d.take(i - 1));
        assert(d[i - 1] == files[i]);
        assert(file_record_bytes(files[0]) + (dir_records_bytes(d.take(i - 1)) + file_record_bytes(files[i]))
            =~= (file_record_bytes(files[0]) + dir_records_bytes(d.take(i - 1))) + file_record_bytes(files[i]));
    }
}

/// Index at which a file named `name` is inserted: just before the first
/// record whose stored name sorts after it, or at the end.
pub open spec fn insertion_index(files: Seq<FwCfgFileModel>, name: Seq<u8>) -> int
    decreases files.len(),
{
    if files.len() == 0 {
        0
    } else if lex_lt(name, files[0].name) {
        0
    } else {
        1 + insertion_index(files.drop_first(), name)
    }
}

/// The insertion index is the first position whose record name sorts after
/// the new name.
pub proof fn lemma_insertion_index_at(files: Seq<FwCfgFileModel>, name: Seq<u8>, i: int)
    requires
        0 <= i <= files.len(),
        forall|j: int| 0 <= j < i ==> !lex_lt(name, (#[trigger] files[j]).name),
        i < files.len() ==> lex_lt(name, files[i].name),
    ensures
        insertion_index(files, name) == i,
    decreases files.len(),
{
    if files.len() == 0 {
    } else if lex_lt(name, files[0].name) {
        assert(i == 0);
    } else {
        let d = files.drop_first();
        assert(forall|j: int| 0 <= j < i - 1 ==> !lex_lt(name, (#[trigger] d[j]).name)) by {
            assert(forall|j: int| 0 <= j < i - 1 ==> d[j] == files[j + 1]);
        }
        lemma_insertion_index_at(d, name, i - 1);
    }
}

/// What the insertion index means: every record before it sorts no higher
/// than the new name, and the record at it (if any) sorts after it.
pub proof fn lemma_insertion_index_props(files: Seq<FwCfgFileModel>, name: Seq<u8>)
    ensures
        0 <= insertion_index(files, name) <= files.len(),
        forall|j: int| 0 <= j < insertion_index(files, name)
            ==> !lex_lt(name, (#[trigger] files[j]).name),
        insertion_index(files, name) < files.len()
            ==> lex_lt(name, files[insertion_index(files, name)].name),
    decreases files.len(),
{
    if files.len() > 0 && !lex_lt(name, files[0].name) {
        let d = files.drop_first();
        lemma_insertion_index_props(d, name);
        let ii = insertion_index(files, name);
        assert(ii == 1 + insertion_index(d, name));
        assert forall|j: int| 0 <= j < ii implies !lex_lt(name, (#[trigger] files[j]).name) by {
            if j > 0 {
                assert(d[j - 1] == files[j]);
            }
        }
        if ii < files.len() {
            assert(d[ii - 1] == files[ii]);
        }
    }
}

/// The directory order: records sorted by stored name, non-decreasing in
/// strict lexicographic byte order.
pub open spec fn dir_sorted(files: Seq<FwCfgFileModel>) -> bool {
    forall|i: int, j: int| 0 <= i <= j < files.len()
        ==> !lex_lt((#[trigger] files[j]).name, (#[trigger] files[i]).name)
}

/// The directory is kept sorted by name: adding a file to a sorted directory
/// leaves it sorted.
pub proof fn lemma_add_file_keeps_sorted(
    m: FwCfgModel,
    name: Seq<u8>,
    data: Seq<u8>,
    allow_write: bool,
)
    requires
        m.wf(),
        dir_sorted(m.files),
    ensures
        dir_sorted(m.spec_add_file(name, data, allow_write).files),
{
    let idx = insertion_index(m.files, name);
    lemma_insertion_index_props(m.files, name);
    let fs = m.spec_add_file(name, data, allow_write).files;
    assert(fs.len() == m.files.len() + 1);
    assert forall|i: int, j: int| 0 <= i <= j < fs.len() implies !lex_lt(
        (#[trigger] fs[j]).name,
        (#[trigger] fs[i]).name,
    ) by {
        if i < idx {
            assert(fs[i].name == m.files[i].name);
            assert(m.files[i].name.len() == FW_CFG_FILE_NAME_LEN);
            if j < idx {
                assert(fs[j].name == m.files[j].name);
            } else if j == idx {
                lemma_pad_keeps_ge(name, m.files[i].name, FW_CFG_FILE_NAME_LEN as nat);
            } else {
                assert(fs[j].name == m.files[j - 1].name);
            }
        } else if i == idx {
            if j == idx {
                lemma_lex_lt_irrefl(fs[idx].name);
            } else {
                assert(fs[j].name == m.files[j - 1].name);
                assert(m.files[j - 1].name.len() == FW_CFG_FILE_NAME_LEN);
                assert(lex_lt(name, m.files[idx].name));
                assert(!lex_lt(m.files[j - 1].name, m.files[idx].name));
                lemma_lex_lt_trans_le(name, m.files[idx].name, m.files[j - 1].name);
                lemma_pad_keeps_le(name, m.files[j - 1].name, FW_CFG_FILE_NAME_LEN as nat);
            }
        } else {
            assert(fs[i].name == m.files[i - 1].name);
            assert(fs[j].name == m.files[j - 1].name);
        }
    }
}

/// The directory of the device as constructed is sorted.
pub proof fn lemma_init_dir_sorted()
    ensures
        dir_sorted(FwCfgModel::init().files),
{
    let m = FwCfgModel::empty().spec_add_entry(
        FwCfgEntryType::Signature.spec_selector(),
        fw_cfg_signature(),
    );
    assert(m.wf()) by {
        assert(FwCfgModel::empty().wf());
    }
    lemma_add_file_keeps_sorted(m, fw_cfg_boot_file_name(), fw_cfg_boot_file_data(), false);
}

/// The selector keys of the firmware configuration table.
#[derive(Clone, Copy, Debug)]
pub enum FwCfgEntryType {
    /// The "QEMU" signature entry.
    Signature,
    /// The feature-bitmap entry.
    Id,
    /// The synthesized file directory.
    FileDir,
    /// The e820 memory map (an architecture-local entry).
    E820Table,
}

impl FwCfgEntryType {
    /// The 16-bit selector value of this entry type.
    pub open spec fn spec_selector(self) -> u16 {
        match self {
            FwCfgEntryType::Signature => 0x0,
            FwCfgEntryType::Id => 0x1,
            FwCfgEntryType::FileDir => 0x19,
            FwCfgEntryType::E820Table => 0x8003,
        }
    }

    /// Returns the selector value this entry type stands for.
    pub fn selector(self) -> (r: u16)
        ensures
            r == self.spec_selector(),
    {
        match self {
            FwCfgEntryType::Signature => 0x0,
            FwCfgEntryType::Id => 0x1,
            FwCfgEntryType::FileDir => 0x19,
            FwCfgEntryType::E820Table => 0x8003,
        }
    }
}

/// One slot of the entry table: a byte buffer and a write-permission flag.
pub struct FwCfgEntry {
    /// The slot's byte buffer.
    pub data: Vec<u8>,
    /// Whether guest writes to the slot are permitted.
    pub allow_write: bool,
}

impl View for FwCfgEntry {
    type V = FwCfgEntryModel;

    open spec fn view(&self) -> FwCfgEntryModel {
        FwCfgEntryModel { data: self.data@, allow_write: self.allow_write }
    }
}

impl FwCfgEntry {
    /// Builds a slot from its buffer and write-permission flag.
    pub fn new(data: Vec<u8>, allow_write: bool) -> (r: FwCfgEntry)
        ensures
            r@ == (FwCfgEntryModel { data: data@, allow_write }),
    {
        FwCfgEntry { data, allow_write }
    }
}

/// One file directory record, with the name stored zero-padded to 56 bytes.
pub struct FwCfgFile {
    /// Size in bytes of the file's entry buffer.
    pub size: u32,
    /// Selector of the entry slot holding the file's bytes.
    pub select: u16,
    /// Always zero on the wire.
    pub reserved: u16,
    /// The stored name, exactly 56 bytes.
    pub name: Vec<u8>,
}

impl View for FwCfgFile {
    type V = FwCfgFileModel;

    open spec fn view(&self) -> FwCfgFileModel {
        FwCfgFileModel {
            size: self.size,
            select: self.select,
            reserved: self.reserved,
            name: self.name@,
        }
    }
}

impl FwCfgFile {
    /// Builds a record, truncating or zero-padding the name to 56 bytes.
    pub fn new(size: u32, select: u16, name: &[u8]) -> (r: FwCfgFile)
        ensures
            r@ == (FwCfgFileModel { size, select, reserved: 0, name: padded_name(name@) }),
    {
        let mut bytes: Vec<u8> = Vec::new();
        let mut i: usize = 0;
        while i < FW_CFG_FILE_NAME_LEN
            invariant
                i <= FW_CFG_FILE_NAME_LEN,
                bytes@.len() == i,
                forall|j: int| 0 <= j < i ==> bytes@[j] == padded_name(name@)[j],
            decreases FW_CFG_FILE_NAME_LEN - i,
        {
            if i < name.len() {
                bytes.push(name[i]);
            } else {
                bytes.push(0u8);
            }
            i += 1;
        }
        proof {
            assert(bytes@ =~= padded_name(name@));
        }
        FwCfgFile { size, select, reserved: 0, name: bytes }
    }

    /// Serializes the record into its 64 wire bytes.
    pub fn as_be_bytes(&self) -> (r: Vec<u8>)
        requires
            self@.name.len() == FW_CFG_FILE_NAME_LEN,
        ensures
            r@ == file_record_bytes(self@),
            r@.len() == 64,
    {
        let mut bytes: Vec<u8> = Vec::new();
        bytes.push(#[verifier::truncate] (((self.size >> 24) & 0xff) as u8));
        bytes.push(#[verifier::truncate] (((self.size >> 16) & 0xff) as u8));
        bytes.push(#[verifier::truncate] (((self.size >> 8) & 0xff) as u8));
        bytes.push(#[verifier::truncate] ((self.size & 0xff) as u8));
        bytes.push(#[verifier::truncate] (((self.select >> 8) & 0xff) as u8));
        bytes.push(#[verifier::truncate] ((self.select & 0xff) as u8));
        bytes.push(#[verifier::truncate] (((self.reserved >> 8) & 0xff) as u8));
        bytes.push(#[verifier::truncate] ((self.reserved & 0xff) as u8));
        proof {
            assert(bytes@ =~= file_record_bytes(self@).take(8));
        }
        let mut i: usize = 0;
        while i < FW_CFG_FILE_NAME_LEN
            invariant
                i <= FW_CFG_FILE_NAME_LEN,
                self@.name.len() == FW_CFG_FILE_NAME_LEN,
                self.name@.len() == FW_CFG_FILE_NAME_LEN,
                bytes@.len() == 8 + i,
                bytes@.take(8) == file_record_bytes(self@).take(8),
                forall|j: int| 0 <= j < i ==> bytes@[8 + j] == self.name@[j],
            decreases FW_CFG_FILE_NAME_LEN - i,
        {
            let b = self.name[i];
            bytes.push(b);
            proof {
                assert(bytes@.take(8) =~= file_record_bytes(self@).take(8));
            }
            i += 1;
        }
        proof {
            assert forall|j: int| 0 <= j < 64 implies bytes@[j] == file_record_bytes(self@)[j] by {
                if j < 8 {
                    assert(bytes@[j] == bytes@.take(8)[j]);
                    assert(file_record_bytes(self@).take(8)[j] == file_record_bytes(self@)[j]);
                } else {
                    assert(bytes@[8 + (j - 8)] == self.name@[j - 8]);
                    assert(file_record_bytes(self@)[j] == self@.name[j - 8]);
                }
            }
            assert(bytes@ =~= file_record_bytes(self@));
        }
        bytes
    }
}

/// The signature bytes exposed by the signature entry.
pub open spec fn fw_cfg_signature() -> Seq<u8> {
    seq![0x51u8, 0x45u8, 0x4du8, 0x55u8]
}

/// The name of the file installed at construction.
pub open spec fn fw_cfg_boot_file_name() -> Seq<u8> {
    seq![
        0x67u8, 0x65u8, 0x6eu8, 0x72u8, 0x6fu8, 0x6du8, 0x73u8, 0x2fu8,
        0x6du8, 0x75u8, 0x6cu8, 0x74u8, 0x69u8, 0x62u8, 0x6fu8, 0x6fu8,
        0x74u8, 0x2eu8, 0x62u8, 0x69u8, 0x6eu8,
    ]
}

/// The bytes of the file installed at construction.
pub open spec fn fw_cfg_boot_file_data() -> Seq<u8> {
    seq![0x48u8, 0x45u8, 0x4cu8, 0x4cu8, 0x4fu8]
}

/// Mathematical state of the firmware configuration device.
#[verifier::ext_equal]
pub ghost struct FwCfgModel {
    /// The entry table: one slot per selector, file slots appended.
    pub entries: Seq<FwCfgEntryModel>,
    /// Guest address of the selector register; the data register is at `base + 1`.
    pub base: usize,
    /// The selector stored by the last select, unmasked, or the invalid sentinel.
    pub cur_entry: u16,
    /// Byte offset of the cursor into the selected entry.
    pub cur_offset: u32,
    /// The file directory records, selector-contiguous from the first file slot.
    pub files: Seq<FwCfgFileModel>,
}

impl FwCfgModel {
    /// Validity: the entry table and the directory stay in lock-step, file
    /// selectors are contiguous, names are stored padded, buffers fit a
    /// 32-bit size, and the register pair fits in the address space.
    pub open spec fn wf(self) -> bool {
        &&& self.entries.len() == FW_CFG_MAX_ENTRY + self.files.len()
        &&& self.files.len() <= FW_CFG_FILE_SLOTS_DFLT
        &&& forall|i: int| 0 <= i < self.entries.len()
            ==> (#[trigger] self.entries[i]).data.len() <= u32::MAX
        &&& forall|i: int| 0 <= i < self.files.len()
            ==> (#[trigger] self.files[i]).select == FW_CFG_FILE_FIRST + i
        &&& forall|i: int| 0 <= i < self.files.len()
            ==> (#[trigger] self.files[i]).name.len() == FW_CFG_FILE_NAME_LEN
        &&& self.base + 2 <= usize::MAX
    }

    /// The table index the cursor points at: the stored selector with the
    /// flag bits masked off at read time.
    pub open spec fn entry_index(self) -> int {
        (self.cur_entry & FW_CFG_ENTRY_MASK) as int
    }

    /// Whether the cursor points at a present entry with bytes left to read.
    pub open spec fn read_valid(self) -> bool {
        &&& self.entry_index() < self.entries.len()
        &&& self.cur_offset < self.entries[self.entry_index()].data.len()
    }

    /// Effect of a select: the offset resets; an in-range selector is stored
    /// unmasked, an out-of-range one stores the invalid sentinel.
    pub open spec fn spec_select_entry(self, key: u16) -> FwCfgModel {
        if key & FW_CFG_ENTRY_MASK >= FW_CFG_MAX_ENTRY {
            FwCfgModel { cur_entry: FW_CFG_INVALID, cur_offset: 0, ..self }
        } else {
            FwCfgModel { cur_entry: key, cur_offset: 0, ..self }
        }
    }

    /// Value of a data-register read: the byte under the cursor, or zero when
    /// the entry is absent or exhausted.
    pub open spec fn spec_get_data_val(self) -> u8 {
        if self.read_valid() {
            self.entries[self.entry_index()].data[self.cur_offset as int]
        } else {
            0
        }
    }

    /// Effect of a data-register read: the cursor advances one byte, and
    /// never past the buffer.
    pub open spec fn spec_get_data_state(self) -> FwCfgModel {
        if self.read_valid() {
            FwCfgModel { cur_offset: (self.cur_offset + 1) as u32, ..self }
        } else {
            self
        }
    }

    /// Effect of replacing the buffer of the slot a selector names; selectors
    /// at or past the table bound leave the state unchanged.
    pub open spec fn spec_add_entry(self, key: u16, data: Seq<u8>) -> FwCfgModel {
        let k = (key & FW_CFG_ENTRY_MASK) as int;
        if k < FW_CFG_MAX_ENTRY && k < self.entries.len() {
            FwCfgModel {
                entries: self.entries.update(
                    k,
                    FwCfgEntryModel { data, allow_write: self.entries[k].allow_write },
                ),
                ..self
            }
        } else {
            self
        }
    }

    /// Effect of replacing the buffer of the slot at a raw table index.
    pub open spec fn spec_update_entry_data(self, key: u16, data: Seq<u8>) -> FwCfgModel {
        if (key as int) < self.entries.len() {
            FwCfgModel {
                entries: self.entries.update(
                    key as int,
                    FwCfgEntryModel { data, allow_write: self.entries[key as int].allow_write },
                ),
                ..self
            }
        } else {
            self
        }
    }

    /// Effect of adding a file: the record is inserted at its lexicographic
    /// position, later selectors are renumbered upward, the directory entry
    /// is re-synthesized, and the file's buffer is inserted into the entry
    /// table at the matching slot.
    pub open spec fn spec_add_file(self, name: Seq<u8>, data: Seq<u8>, allow_write: bool) -> FwCfgModel {
        let idx = insertion_index(self.files, name);
        let file = FwCfgFileModel {
            size: data.len() as u32,
            select: (FW_CFG_FILE_FIRST + idx) as u16,
            reserved: 0,
            name: padded_name(name),
        };
        let files1 = Seq::new(
            self.files.len() + 1,
            |i: int|
                if i < idx {
                    self.files[i]
                } else if i == idx {
                    file
                } else {
                    FwCfgFileModel { select: (self.files[i - 1].select + 1) as u16, ..self.files[i - 1] }
                },
        );
        let m1 = FwCfgModel { files: files1, ..self };
        let m2 = m1.spec_update_entry_data(FwCfgEntryType::FileDir.spec_selector(), dir_bytes(files1));
        FwCfgModel {
            entries: m2.entries.insert(FW_CFG_FILE_FIRST + idx, FwCfgEntryModel { data, allow_write }),
            ..m2
        }
    }

    /// Value returned by a read at `addr`: the data register yields the byte
    /// under the cursor, anything else in range yields zero.
    pub open spec fn spec_handle_read_val(self, addr: usize) -> usize {
        if addr == self.base + 1 {
            self.spec_get_data_val() as usize
        } else {
            0
        }
    }

    /// Effect of a read at `addr`: only the data register moves the cursor.
    pub open spec fn spec_handle_read_state(self, addr: usize) -> FwCfgModel {
        if addr == self.base + 1 {
            self.spec_get_data_state()
        } else {
            self
        }
    }

    /// Effect of a write at `addr`: the selector register selects, all other
    /// addresses are ignored.
    pub open spec fn spec_handle_write_state(self, addr: usize, val: usize) -> FwCfgModel {
        if addr == self.base {
            self.spec_select_entry((val & 0xffff) as u16)
        } else {
            self
        }
    }

    /// The table before anything is added: one empty, read-only slot per
    /// selector and no files.
    pub open spec fn empty() -> FwCfgModel {
        FwCfgModel {
            entries: Seq::new(
                FW_CFG_MAX_ENTRY as nat,
                |i: int| FwCfgEntryModel { data: Seq::empty(), allow_write: false },
            ),
            base: FW_CFG_IO_BASE,
            cur_entry: 0,
            cur_offset: 0,
            files: Seq::empty(),
        }
    }

    /// State as constructed: the signature entry filled and one file added.
    pub open spec fn init() -> FwCfgModel {
        FwCfgModel::empty()
            .spec_add_entry(FwCfgEntryType::Signature.spec_selector(), fw_cfg_signature())
            .spec_add_file(fw_cfg_boot_file_name(), fw_cfg_boot_file_data(), false)
    }
}

/// Firmware configuration device: a write-only 16-bit selector register at
/// `base` and a read-only 8-bit data register at `base + 1`.
pub struct FwCfgDevice {
    /// The entry table.
    pub entries: Vec<FwCfgEntry>,
    /// Guest address of the selector register.
    pub base: usize,
    /// The selector stored by the last select, unmasked, or the invalid sentinel.
    pub cur_entry: u16,
    /// Byte offset of the cursor into the selected entry.
    pub cur_offset: u32,
    /// The file directory records.
    pub files: Vec<FwCfgFile>,
}

impl View for FwCfgDevice {
    type V = FwCfgModel;

    open spec fn view(&self) -> FwCfgModel {
        FwCfgModel {
            entries: self.entries@.map_values(|e: FwCfgEntry| e@),
            base: self.base,
            cur_entry: self.cur_entry,
            cur_offset: self.cur_offset,
            files: self.files@.map_values(|f: FwCfgFile| f@),
        }
    }
}

impl FwCfgDevice {
    /// Builds the device at its fixed base, with the signature entry filled
    /// and the boot file installed.
    pub fn new() -> (r: FwCfgDevice)
        ensures
            r@ == FwCfgModel::init(),
            r@.wf(),
    {
        let mut entries: Vec<FwCfgEntry> = Vec::new();
        let mut i: usize = 0;
        while i < FW_CFG_MAX_ENTRY as usize
            invariant
                i <= FW_CFG_MAX_ENTRY as usize,
                entries@.len() == i,
                forall|j: int| 0 <= j < i
                    ==> #[trigger] entries@[j]@ == (FwCfgEntryModel { data: Seq::<u8>::empty(), allow_write: false }),
            decreases FW_CFG_MAX_ENTRY as usize - i,
        {
            entries.push(FwCfgEntry::new(Vec::new(), false));
            i += 1;
        }
        let mut cfg = FwCfgDevice {
            entries,
            base: FW_CFG_IO_BASE,
            cur_entry: 0,
            cur_offset: 0,
            files: Vec::new(),
        };
        proof {
            assert(cfg@.entries =~= FwCfgModel::empty().entries);
            assert(cfg@.files =~= FwCfgModel::empty().files);
            assert(cfg@ =~= FwCfgModel::empty());
        }
        let mut sig: Vec<u8> = Vec::new();
        sig.push(0x51);
        sig.push(0x45);
        sig.push(0x4d);
        sig.push(0x55);
        proof {
            assert(sig@ =~= fw_cfg_signature());
        }
        cfg.add_entry(FwCfgEntryType::Signature, sig);

        let mut name: Vec<u8> = Vec::new();
        name.push(0x67);
        name.push(0x65);
        name.push(0x6e);
        name.push(0x72);
        name.push(0x6f);
        name.push(0x6d);
        name.push(0x73);
        name.push(0x2f);
        name.push(0x6d);
        name.push(0x75);
        name.push(0x6c);
        name.push(0x74);
        name.push(0x69);
        name.push(0x62);
        name.push(0x6f);
        name.push(0x6f);
        name.push(0x74);
        name.push(0x2e);
        name.push(0x62);
        name.push(0x69);
        name.push(0x6e);
        proof {
            assert(name@ =~= fw_cfg_boot_file_name());
        }
        let mut data: Vec<u8> = Vec::new();
        data.push(0x48);
        data.push(0x45);
        data.push(0x4c);
        data.push(0x4c);
        data.push(0x4f);
        proof {
            assert(data@ =~= fw_cfg_boot_file_data());
        }
        let added = cfg.add_file(name.as_slice(), data, false);
        proof {
            assert(added is Ok);
        }
        cfg
    }

    /// One past the largest valid selector.
    fn max_entry(&self) -> (r: u16)
        ensures
            r == FW_CFG_MAX_ENTRY,
    {
        FW_CFG_FILE_FIRST + FW_CFG_FILE_SLOTS_DFLT
    }

    /// Replaces the buffer of the slot named by `key`; out-of-range selectors
    /// leave the table unchanged.
    pub fn add_entry(&mut self, key: FwCfgEntryType, data: Vec<u8>)
        requires
            data@.len() <= u32::MAX,
        ensures
            final(self)@ == old(self)@.spec_add_entry(key.spec_selector(), data@),
            old(self)@.wf() ==> final(self)@.wf(),
    {
        let ghost m0 = self@;
        let ghost sel = key.spec_selector();
        let ghost d = data@;
        proof {
            assert((sel & FW_CFG_ENTRY_MASK) & FW_CFG_ENTRY_MASK == sel & FW_CFG_ENTRY_MASK)
                by (bit_vector);
        }
        let masked = key.selector() & FW_CFG_ENTRY_MASK;
        if masked < self.max_entry() {
            let k = masked as usize;
            if k < self.entries.len() {
                let aw = self.entries[k].allow_write;
                self.entries.set(k, FwCfgEntry { data, allow_write: aw });
                proof {
                    assert(self@.entries =~= m0.entries.update(
                        k as int,
                        FwCfgEntryModel { data: d, allow_write: m0.entries[k as int].allow_write },
                    ));
                    assert(self@ =~= m0.spec_add_entry(sel, d));
                }
                return;
            }
        }
        proof {
            assert(self@ =~= m0.spec_add_entry(sel, d));
        }
    }

    /// Stores a selector and resets the cursor; a selector whose masked value
    /// is out of range stores the invalid sentinel instead.
    pub fn select_entry(&mut self, key: u16)
        ensures
            final(self)@ == old(self)@.spec_select_entry(key),
            old(self)@.wf() ==> final(self)@.wf(),
    {
        self.cur_offset = 0;
        if (key & FW_CFG_ENTRY_MASK) >= self.max_entry() {
            self.cur_entry = FW_CFG_INVALID;
        } else {
            self.cur_entry = key;
        }
    }

    /// Reads the byte under the cursor and advances it; an absent entry or an
    /// exhausted buffer reads as zero and does not advance. Never fails.
    pub fn get_data(&mut self) -> (r: Result<u8, AxVmDeviceError>)
        requires
            old(self)@.wf(),
        ensures
            r == Ok::<u8, AxVmDeviceError>(old(self)@.spec_get_data_val()),
            final(self)@ == old(self)@.spec_get_data_state(),
            final(self)@.wf(),
    {
        let pos = (self.cur_entry & FW_CFG_ENTRY_MASK) as usize;
        if pos < self.entries.len() {
            let off = self.cur_offset as usize;
            if off < self.entries[pos].data.len() {
                let r = self.entries[pos].data[off];
                proof {
                    assert(old(self)@.entries[pos as int].data.len() <= u32::MAX);
                }
                self.cur_offset = self.cur_offset + 1;
                return Ok(r);
            }
        }
        Ok(0)
    }

    /// Replaces the buffer of the slot at raw index `key`, keeping its
    /// write-permission flag.
    fn update_entry_data(&mut self, key: u16, data: Vec<u8>)
        ensures
            final(self)@ == old(self)@.spec_update_entry_data(key, data@),
    {
        let ghost m0 = self@;
        let ghost d = data@;
        let k = key as usize;
        if k < self.entries.len() {
            let aw = self.entries[k].allow_write;
            self.entries.set(k, FwCfgEntry { data, allow_write: aw });
            proof {
                assert(self@.entries =~= m0.entries.update(
                    k as int,
                    FwCfgEntryModel { data: d, allow_write: m0.entries[k as int].allow_write },
                ));
                assert(self@ =~= m0.spec_update_entry_data(key, d));
            }
            return;
        }
        proof {
            assert(self@ =~= m0.spec_update_entry_data(key, d));
        }
    }

    /// Index at which a file named `name` is inserted into the directory.
    fn find_insert_index(&self, name: &[u8]) -> (r: usize)
        ensures
            r == insertion_index(self@.files, name@),
            r <= self@.files.len(),
    {
        let n = self.files.len();
        let mut i: usize = 0;
        while i < n
            invariant
                i <= n,
                n == self@.files.len(),
                forall|j: int| 0 <= j < i ==> !lex_lt(name@, (#[trigger] self@.files[j]).name),
            decreases n - i,
        {
            if lex_lt_bytes(name, self.files[i].name.as_slice()) {
                proof {
                    lemma_insertion_index_at(self@.files, name@, i as int);
                }
                return i;
            }
            i += 1;
        }
        proof {
            lemma_insertion_index_at(self@.files, name@, n as int);
        }
        n
    }

    /// Inserts a file at its lexicographic position in the directory,
    /// renumbers later selectors, re-synthesizes the directory entry and
    /// inserts the file's buffer into the entry table, keeping directory and
    /// table in lock-step. Fails only when every file slot is taken.
    #[verifier::loop_isolation(false)]
    #[verifier::rlimit(50)]
    pub fn add_file(&mut self, filename: &[u8], data: Vec<u8>, allow_write: bool) -> (r: Result<
        (),
        AxVmDeviceError,
    >)
        requires
            old(self)@.wf(),
            data@.len() <= u32::MAX,
        ensures
            old(self)@.files.len() < FW_CFG_FILE_SLOTS_DFLT ==> r == Ok::<(), AxVmDeviceError>(())
                && final(self)@ == old(self)@.spec_add_file(filename@, data@, allow_write),
            old(self)@.files.len() >= FW_CFG_FILE_SLOTS_DFLT ==> r == Err::<(), AxVmDeviceError>(
                AxVmDeviceError::EntryOutOfRange,
            ) && *final(self) == *old(self),
            final(self)@.wf(),
    {
        if self.files.len() >= FW_CFG_FILE_SLOTS_DFLT as usize {
            return Err(AxVmDeviceError::EntryOutOfRange);
        }
        let ghost m0 = self@;
        let ghost nm = filename@;
        let ghost d = data@;
        let ghost idx = insertion_index(m0.files, nm);
        let ghost file_m = FwCfgFileModel {
            size: d.len() as u32,
            select: (FW_CFG_FILE_FIRST + idx) as u16,
            reserved: 0,
            name: padded_name(nm),
        };
        let ghost files1 = Seq::new(
            m0.files.len() + 1,
            |i: int|
                if i < idx {
                    m0.files[i]
                } else if i == idx {
                    file_m
                } else {
                    FwCfgFileModel { select: (m0.files[i - 1].select + 1) as u16, ..m0.files[i - 1] }
                },
        );

        let index = self.find_insert_index(filename);
        let size = data.len() as u32;
        let file = FwCfgFile::new(size, FW_CFG_FILE_FIRST + index as u16, filename);
        self.files.insert(index, file);
        proof {
            self.files@.map_values(|f: FwCfgFile| f@).insert_ensures(idx, file_m);
            m0.files.insert_ensures(idx, file_m);
            assert(self@.files =~= m0.files.insert(idx, file_m));
        }

        let mut i: usize = index + 1;
        while i < self.files.len()
            invariant
                index + 1 <= i <= self.files@.len(),
                self.files@.len() == m0.files.len() + 1,
                self@.entries == m0.entries,
                self@.base == m0.base,
                self@.cur_entry == m0.cur_entry,
                self@.cur_offset == m0.cur_offset,
                forall|j: int| 0 <= j < i ==> self@.files[j] == files1[j],
                forall|j: int| i <= j < self.files@.len() ==> self@.files[j] == m0.files[j - 1],
            decreases self.files@.len() - i,
        {
            let ghost pre = self@.files;
            let mut f = self.files.remove(i);
            proof {
                pre.remove_ensures(i as int);
                assert(f@ == pre[i as int]);
                assert(pre[i as int] == m0.files[i - 1]);
                assert(m0.files[i - 1].select == FW_CFG_FILE_FIRST + (i - 1));
                assert(m0.files.len() <= FW_CFG_FILE_SLOTS_DFLT);
                assert(f.select < 0x40);
            }
            f.select = f.select + 1;
            self.files.insert(i, f);
            proof {
                pre.remove(i as int).insert_ensures(i as int, f@);
                assert(self@.files =~= pre.update(i as int, f@));
                assert(f@ =~= files1[i as int]);
            }
            i += 1;
        }
        proof {
            assert(self@.files =~= files1);
        }

        let mut bytes: Vec<u8> = Vec::new();
        let count = self.files.len() as u32;
        bytes.push(#[verifier::truncate] (((count >> 24) & 0xff) as u8));
        bytes.push(#[verifier::truncate] (((count >> 16) & 0xff) as u8));
        bytes.push(#[verifier::truncate] (((count >> 8) & 0xff) as u8));
        bytes.push(#[verifier::truncate] ((count & 0xff) as u8));
        proof {
            assert(bytes@ =~= be32(count));
            assert(count == files1.len() as u32);
            assert(files1.take(0) =~= Seq::<FwCfgFileModel>::empty());
            assert(forall|j: int| 0 <= j < files1.len()
                ==> (#[trigger] files1[j]).name.len() == FW_CFG_FILE_NAME_LEN);
        }
        let mut i2: usize = 0;
        while i2 < self.files.len()
            invariant
                0 <= i2 <= self.files@.len(),
                bytes@ == be32(count) + dir_records_bytes(files1.take(i2 as int)),
            decreases self.files@.len() - i2,
        {
            proof {
                assert(self@.files[i2 as int] == files1[i2 as int]);
                assert(files1[i2 as int].name.len() == FW_CFG_FILE_NAME_LEN);
            }
            let mut fb = self.files[i2].as_be_bytes();
            bytes.append(&mut fb);
            proof {
                lemma_dir_records_bytes_take(files1, i2 as int);
                assert(bytes@ =~= be32(count) + dir_records_bytes(files1.take(i2 + 1)));
            }
            i2 += 1;
        }
        proof {
            assert(files1.take(files1.len() as int) =~= files1);
            assert(bytes@ == dir_bytes(files1));
        }
        let ghost m1 = FwCfgModel { files: files1, ..m0 };
        proof {
            assert(self@ =~= m1);
        }
        self.update_entry_data(FwCfgEntryType::FileDir.selector(), bytes);
        let ghost m2 = m1.spec_update_entry_data(
            FwCfgEntryType::FileDir.spec_selector(),
            dir_bytes(files1),
        );
        let e = FwCfgEntry::new(data, allow_write);
        proof {
            assert(m0.wf());
            assert(index <= m0.files.len());
            assert(self@.entries.len() == FW_CFG_MAX_ENTRY + m0.files.len());
            assert(FW_CFG_FILE_FIRST as usize + index <= self.entries@.len());
        }
        self.entries.insert(FW_CFG_FILE_FIRST as usize + index, e);
        proof {
            let pos = FW_CFG_FILE_FIRST + idx;
            self.entries@.map_values(|en: FwCfgEntry| en@).insert_ensures(
                pos,
                FwCfgEntryModel { data: d, allow_write },
            );
            m2.entries.insert_ensures(pos, FwCfgEntryModel { data: d, allow_write });
            assert(self@.entries =~= m2.entries.insert(
                pos,
                FwCfgEntryModel { data: d, allow_write },
            ));
            assert(self@ =~= m0.spec_add_file(nm, d, allow_write));
            lemma_dir_records_bytes_len(files1);
            assert(self@.wf());
        }
        Ok(())
    }

    /// Half-open guest address range `[base, base + 2)` of the register pair.
    pub fn address_range(&self) -> (r: (usize, usize))
        requires
            self@.wf(),
        ensures
            r.0 == self@.base,
            r.1 == self@.base + 2,
    {
        (self.base, self.base + 2)
    }

    /// A read at the data register returns the byte under the cursor and
    /// advances it; reads anywhere else in the range return zero.
    pub fn handle_read(&mut self, addr: usize, _width: usize) -> (r: Result<usize, AxVmDeviceError>)
        requires
            old(self)@.wf(),
        ensures
            final(self)@ == old(self)@.spec_handle_read_state(addr),
            r == Ok::<usize, AxVmDeviceError>(old(self)@.spec_handle_read_val(addr)),
            final(self)@.wf(),
    {
        if addr == self.base + 1 {
            match self.get_data() {
                Ok(x) => Ok(x as usize),
                Err(e) => Err(e),
            }
        } else {
            Ok(0)
        }
    }

    /// A write at the selector register selects an entry; writes anywhere
    /// else in the range are ignored.
    pub fn handle_write(&mut self, addr: usize, _width: usize, val: usize)
        requires
            old(self)@.wf(),
        ensures
            final(self)@ == old(self)@.spec_handle_write_state(addr, val),
            final(self)@.wf(),
    {
        if addr == self.base {
            assert(val & 0xffff < 0x10000) by (bit_vector);
            self.select_entry((val & 0xffff) as u16);
        }
    }
}

/// The state after `n` consecutive data-register reads.
pub open spec fn read_state_n(m: FwCfgModel, n: nat) -> FwCfgModel
    decreases n,
{
    if n == 0 {
        m
    } else {
        read_state_n(m, (n - 1) as nat).spec_get_data_state()
    }
}

/// The bytes yielded by `n` consecutive data-register reads.
pub open spec fn read_vals_n(m: FwCfgModel, n: nat) -> Seq<u8>
    decreases n,
{
    if n == 0 {
        Seq::empty()
    } else {
        read_vals_n(m, (n - 1) as nat).push(read_state_n(m, (n - 1) as nat).spec_get_data_val())
    }
}

/// While the cursor points at a present entry, each read advances the offset
/// by exactly one and yields the entry's bytes in order.
proof fn lemma_read_progress(m: FwCfgModel, data: Seq<u8>, n: nat)
    requires
        n <= data.len(),
        data.len() <= u32::MAX,
        m.entry_index() < m.entries.len(),
        m.entries[m.entry_index()].data == data,
        m.cur_offset == 0,
    ensures
        read_state_n(m, n) == (FwCfgModel { cur_offset: n as u32, ..m }),
        read_vals_n(m, n) == data.take(n as int),
    decreases n,
{
    if n == 0 {
        assert(read_state_n(m, 0) =~= (FwCfgModel { cur_offset: 0u32, ..m }));
        assert(read_vals_n(m, 0) =~= data.take(0));
    } else {
        lemma_read_progress(m, data, (n - 1) as nat);
        let prev = read_state_n(m, (n - 1) as nat);
        assert(prev.entry_index() == m.entry_index());
        assert(prev.read_valid());
        assert(read_state_n(m, n) =~= (FwCfgModel { cur_offset: n as u32, ..m }));
        assert(read_vals_n(m, n) =~= data.take(n as int));
    }
}

/// Round trip through the entry table: after a buffer is stored under a
/// selector and that selector is selected, consecutive data-register reads
/// yield exactly the stored bytes in order, and the next read past the end
/// yields zero.
pub proof fn lemma_entry_round_trip(m: FwCfgModel, key: FwCfgEntryType, data: Seq<u8>)
    requires
        m.wf(),
        data.len() <= u32::MAX,
    ensures
        ({
            let m2 = m.spec_add_entry(key.spec_selector(), data).spec_select_entry(
                key.spec_selector(),
            );
            &&& read_vals_n(m2, data.len()) == data
            &&& read_state_n(m2, data.len()).spec_get_data_val() == 0
        }),
{
    let sel = key.spec_selector();
    assert(sel & FW_CFG_ENTRY_MASK < FW_CFG_MAX_ENTRY) by (bit_vector)
        requires
            sel == 0x0 || sel == 0x1 || sel == 0x19 || sel == 0x8003,
    ;
    let m1 = m.spec_add_entry(sel, data);
    let m2 = m1.spec_select_entry(sel);
    assert(m2.entry_index() == (sel & FW_CFG_ENTRY_MASK) as int);
    assert(m2.entries[m2.entry_index()].data == data);
    lemma_read_progress(m2, data, data.len());
    let done = read_state_n(m2, data.len());
    assert(!done.read_valid());
    assert(read_vals_n(m2, data.len()) =~= data);
}

} // verus!
