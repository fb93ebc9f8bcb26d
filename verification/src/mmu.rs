//! MMU configuration: translation tables for 32-bit virtual addresses with
//! 4 KiB granules. Every address maps to itself, so the MMU serves memory
//! protection and caching only. The 2 MiB blocks that the program image and
//! its guard range touch are mapped page by page: code is read-only and
//! executable, read-only data and everything writable are never executable
//! (W^X), and the guard range is left unmapped.

use vstd::prelude::*;

use arbitrary_int::u27;

use crate::bits::{get_bits, lemma_fits, lemma_read_bound, lemma_set_bits_facts, read_bits, set_bits};
use crate::descriptor::{
    access_permissions_bits, bit_of, decode, shareability_bits, AccessPermissions,
    BlockDescriptor, DescriptorFields, Shareability,
};

verus! {

/// Number of entries of the level 1 table: 1 GiB each.
pub const LEVEL1_TABLE_ENTRIES: usize = 4;

/// Number of entries of a level 2 table (2 MiB each) or a level 3 table
/// (4 KiB each).
pub const TABLE_ENTRIES: usize = 512;

/// Size of the region that one level 1 entry maps: 1 GiB.
pub const LEVEL1_BLOCK_SIZE: u64 = 0x4000_0000;

/// Size of the region that one level 2 entry maps: 2 MiB.
pub const LEVEL2_BLOCK_SIZE: u64 = 0x20_0000;

/// Size of a page, the region that one level 3 entry maps: 4 KiB.
pub const PAGE_SIZE: u64 = 0x1000;

/// Index of the MAIR_EL1 attribute set for normal memory.
pub const NORMAL_MEMORY_ATTRIBUTE: u8 = 0;

/// Index of the MAIR_EL1 attribute set for device memory.
pub const DEVICE_MEMORY_ATTRIBUTE: u8 = 1;

/// The word whose fields are those of `f`; no other bit is set.
pub open spec fn encode(f: DescriptorFields) -> u64 {
    let r = set_bits(0, 21, 27, f.shifted_address);
    let r = set_bits(r, 12, 9, f.low_address);
    let r = set_bits(r, 54, 1, bit_of(f.unprivileged_execute_never));
    let r = set_bits(r, 53, 1, bit_of(f.privileged_execute_never));
    let r = set_bits(r, 52, 1, bit_of(f.contiguous));
    let r = set_bits(r, 10, 1, bit_of(f.access_flag));
    let r = set_bits(r, 8, 2, shareability_bits(f.shareability));
    let r = set_bits(r, 6, 2, access_permissions_bits(f.access_permissions));
    let r = set_bits(r, 5, 1, bit_of(f.not_secure));
    let r = set_bits(r, 2, 3, f.attribute_index);
    let r = set_bits(r, 1, 1, bit_of(f.table_descriptor));
    set_bits(r, 0, 1, bit_of(f.valid))
}

/// The numeric fields fit their widths.
pub open spec fn fields_fit(f: DescriptorFields) -> bool {
    f.shifted_address < 0x800_0000 && f.low_address < 512 && f.attribute_index < 8
}

/// Decoding an encoded descriptor gives back its fields.
pub proof fn lemma_decode_encode(f: DescriptorFields)
    requires
        fields_fit(f),
    ensures
        decode(encode(f)) == f,
{
    lemma_fits(f.shifted_address);
    lemma_fits(f.low_address);
    lemma_fits(f.attribute_index);
    lemma_fits(bit_of(f.unprivileged_execute_never));
    lemma_fits(bit_of(f.privileged_execute_never));
    lemma_fits(bit_of(f.contiguous));
    lemma_fits(bit_of(f.access_flag));
    lemma_fits(shareability_bits(f.shareability));
    lemma_fits(access_permissions_bits(f.access_permissions));
    lemma_fits(bit_of(f.not_secure));
    lemma_fits(bit_of(f.table_descriptor));
    lemma_fits(bit_of(f.valid));
    let r0 = set_bits(0, 21, 27, f.shifted_address);
    lemma_set_bits_facts(0, 21, 27, f.shifted_address);
    let ra = set_bits(r0, 12, 9, f.low_address);
    lemma_set_bits_facts(r0, 12, 9, f.low_address);
    let r1 = set_bits(ra, 54, 1, bit_of(f.unprivileged_execute_never));
    lemma_set_bits_facts(ra, 54, 1, bit_of(f.unprivileged_execute_never));
    let r2 = set_bits(r1, 53, 1, bit_of(f.privileged_execute_never));
    lemma_set_bits_facts(r1, 53, 1, bit_of(f.privileged_execute_never));
    let r3 = set_bits(r2, 52, 1, bit_of(f.contiguous));
    lemma_set_bits_facts(r2, 52, 1, bit_of(f.contiguous));
    let r4 = set_bits(r3, 10, 1, bit_of(f.access_flag));
    lemma_set_bits_facts(r3, 10, 1, bit_of(f.access_flag));
    let r5 = set_bits(r4, 8, 2, shareability_bits(f.shareability));
    lemma_set_bits_facts(r4, 8, 2, shareability_bits(f.shareability));
    let r6 = set_bits(r5, 6, 2, access_permissions_bits(f.access_permissions));
    lemma_set_bits_facts(r5, 6, 2, access_permissions_bits(f.access_permissions));
    let r7 = set_bits(r6, 5, 1, bit_of(f.not_secure));
    lemma_set_bits_facts(r6, 5, 1, bit_of(f.not_secure));
    let r8 = set_bits(r7, 2, 3, f.attribute_index);
    lemma_set_bits_facts(r7, 2, 3, f.attribute_index);
    let r9 = set_bits(r8, 1, 1, bit_of(f.table_descriptor));
    lemma_set_bits_facts(r8, 1, 1, bit_of(f.table_descriptor));
    let r10 = set_bits(r9, 0, 1, bit_of(f.valid));
    lemma_set_bits_facts(r9, 0, 1, bit_of(f.valid));
    assert(decode(r10) == f);
}

/// `u27::extract_u64` of arbitrary-int: the 27 bits of `value` from bit
/// `start_bit` on, that is `((value >> start_bit) as u32) & u27::MAX`. It panics
/// unless `start_bit + 27 <= 64`, which `requires` excludes.
#[verifier::external_body]
fn extract_u27(value: u64, start_bit: usize) -> (r: u32)
    requires
        start_bit + 27 <= 64,
    ensures
        r == ((value >> start_bit) as u32) & 0x7ff_ffffu32,
{
    u27::extract_u64(value, start_bit).value()
}

/// Translates a full address to the shifted address expected in a
/// descriptor: bits 21..=47 of `address`.
pub fn shift_address(address: u64) -> (r: u32)
    ensures
        r as u64 == get_bits(address, 21, 27),
        r < 0x800_0000,
{
    let r = extract_u27(address, 21);
    assert(r == ((address >> 21usize) as u32) & 0x7ff_ffffu32 ==> r as u64 == (address >> 21u64)
        & !(0xffff_ffff_ffff_ffffu64 << 27u64) && r < 0x800_0000) by (bit_vector);
    r
}

/// Writes the fields of `f` into a zero word, one setter after the other.
pub fn encode_fields(f: DescriptorFields) -> (r: u64)
    requires
        fields_fit(f),
    ensures
        r == encode(f),
{
    BlockDescriptor::new_with_raw_value(0).with_shifted_address(
        f.shifted_address as u32,
    ).with_low_address(f.low_address as u16).with_unprivileged_execute_never(
        f.unprivileged_execute_never,
    ).with_privileged_execute_never(f.privileged_execute_never).with_contiguous(
        f.contiguous,
    ).with_access_flag(f.access_flag).with_shareability(f.shareability).with_access_permissions(
        f.access_permissions,
    ).with_not_secure(f.not_secure).with_attribute_index(f.attribute_index as u8).with_table_descriptor(
        f.table_descriptor,
    ).with_valid(f.valid).raw_value()
}

/// The kind of memory that a block or page maps.
#[derive(Clone, Copy, Debug, PartialEq, Eq, Structural)]
pub enum Region {
    /// Program code: read-only, executable at EL1.
    Code,
    /// Read-only data: never executable.
    ReadOnly,
    /// Read-write normal memory (data, heap, stack): never executable.
    ReadWrite,
    /// Device registers: read-write at EL0 and EL1, never executable.
    Device,
}

/// The access permissions of a region.
pub open spec fn region_permissions(region: Region) -> AccessPermissions {
    match region {
        Region::Code => AccessPermissions::PrivilegedRead,
        Region::ReadOnly => AccessPermissions::PrivilegedRead,
        Region::ReadWrite => AccessPermissions::PrivilegedReadWrite,
        Region::Device => AccessPermissions::UnprivilegedReadWrite,
    }
}

/// The fields of a block (or, where `page`, a page) of `region` at `address`:
/// cacheable normal memory (attribute set 0 of MAIR_EL1) or device memory
/// (attribute set 1); only code may be executed, at EL1 only.
pub open spec fn memory_fields(address: u64, region: Region, page: bool) -> DescriptorFields {
    DescriptorFields {
        unprivileged_execute_never: true,
        privileged_execute_never: region != Region::Code,
        contiguous: false,
        shifted_address: get_bits(address, 21, 27),
        low_address: get_bits(address, 12, 9),
        access_flag: true,
        shareability: Shareability::Outer,
        access_permissions: region_permissions(region),
        not_secure: true,
        attribute_index: if region == Region::Device {
            1
        } else {
            0
        },
        table_descriptor: page,
        valid: true,
    }
}

/// The fields of a table descriptor that points to the table at `next`.
pub open spec fn table_fields(next: u64) -> DescriptorFields {
    DescriptorFields {
        unprivileged_execute_never: false,
        privileged_execute_never: false,
        contiguous: false,
        shifted_address: get_bits(next, 21, 27),
        low_address: get_bits(next, 12, 9),
        access_flag: false,
        shareability: Shareability::NonShareable,
        access_permissions: AccessPermissions::PrivilegedReadWrite,
        not_secure: false,
        attribute_index: 0,
        table_descriptor: true,
        valid: true,
    }
}

/// The fields of an invalid descriptor: every access to what it covers faults.
pub open spec fn invalid_fields() -> DescriptorFields {
    DescriptorFields { valid: false, table_descriptor: false, ..table_fields(0) }
}

/// The descriptor word of a block (or page) of `region` at `address`.
pub fn memory_descriptor(address: u64, region: Region, page: bool) -> (r: u64)
    ensures
        r == encode(memory_fields(address, region, page)),
{
    let low = read_bits(address, 12, 9);
    proof {
        lemma_read_bound(low);
    }
    let f = DescriptorFields {
        unprivileged_execute_never: true,
        privileged_execute_never: match region {
            Region::Code => false,
            _ => true,
        },
        contiguous: false,
        shifted_address: shift_address(address) as u64,
        low_address: low,
        access_flag: true,
        shareability: Shareability::Outer,
        access_permissions: match region {
            Region::Code => AccessPermissions::PrivilegedRead,
            Region::ReadOnly => AccessPermissions::PrivilegedRead,
            Region::ReadWrite => AccessPermissions::PrivilegedReadWrite,
            Region::Device => AccessPermissions::UnprivilegedReadWrite,
        },
        not_secure: true,
        attribute_index: match region {
            Region::Device => DEVICE_MEMORY_ATTRIBUTE as u64,
            _ => NORMAL_MEMORY_ATTRIBUTE as u64,
        },
        table_descriptor: page,
        valid: true,
    };
    assert(f == memory_fields(address, region, page));
    encode_fields(f)
}

/// The descriptor word of a table descriptor pointing to the table at `next`.
pub fn table_descriptor(next: u64) -> (r: u64)
    ensures
        r == encode(table_fields(next)),
{
    let low = read_bits(next, 12, 9);
    proof {
        lemma_read_bound(low);
    }
    let f = DescriptorFields {
        unprivileged_execute_never: false,
        privileged_execute_never: false,
        contiguous: false,
        shifted_address: shift_address(next) as u64,
        low_address: low,
        access_flag: false,
        shareability: Shareability::NonShareable,
        access_permissions: AccessPermissions::PrivilegedReadWrite,
        not_secure: false,
        attribute_index: 0,
        table_descriptor: true,
        valid: true,
    };
    encode_fields(f)
}

/// The descriptor word of an invalid descriptor.
pub fn invalid_descriptor() -> (r: u64)
    ensures
        r == encode(invalid_fields()),
{
    let f = DescriptorFields {
        unprivileged_execute_never: false,
        privileged_execute_never: false,
        contiguous: false,
        shifted_address: 0,
        low_address: 0,
        access_flag: false,
        shareability: Shareability::NonShareable,
        access_permissions: AccessPermissions::PrivilegedReadWrite,
        not_secure: false,
        attribute_index: 0,
        table_descriptor: false,
        valid: false,
    };
    assert(get_bits(0, 21, 27) == 0 && get_bits(0, 12, 9) == 0) by (bit_vector);
    assert(f == invalid_fields());
    encode_fields(f)
}

/// Where the program image lies in DDR (the lower 2 GiB), every bound on a
/// 4 KiB page boundary. The 2 MiB blocks that the code, the read-only data and
/// the guard range touch are mapped page by page; every other block whole.
#[derive(Clone, Copy, Debug)]
pub struct ImageLayout {
    /// Start of the code (the exception vectors and the program text).
    pub text_start: u64,
    /// End of the code, start of the read-only data.
    pub text_end: u64,
    /// End of the read-only data; what follows is read-write.
    pub rodata_end: u64,
    /// Start of the guard range (below the stack), left unmapped.
    pub guard_start: u64,
    /// End of the guard range.
    pub guard_end: u64,
}

impl ImageLayout {
    /// Start of what is mapped page by page: the lower of the code's start and
    /// the guard range's start.
    pub open spec fn span_start(self) -> int {
        if self.text_start <= self.guard_start {
            self.text_start as int
        } else {
            self.guard_start as int
        }
    }

    /// End of what is mapped page by page.
    pub open spec fn span_end(self) -> int {
        if self.rodata_end >= self.guard_end {
            self.rodata_end as int
        } else {
            self.guard_end as int
        }
    }

    /// Index of the first 2 MiB block mapped page by page.
    pub open spec fn first_block(self) -> int {
        self.span_start() / 0x20_0000
    }

    /// Index of the last 2 MiB block mapped page by page.
    pub open spec fn last_block(self) -> int {
        (self.span_end() - 1) / 0x20_0000
    }

    /// Number of 2 MiB blocks mapped page by page: one level 3 table each.
    pub open spec fn paged_blocks(self) -> int {
        self.last_block() - self.first_block() + 1
    }

    /// The bounds are page-aligned (as the MMU requires), ordered, the guard
    /// range is not empty, and all of it lies in DDR.
    pub open spec fn wf(self) -> bool {
        &&& self.text_start % 0x1000 == 0
        &&& self.text_end % 0x1000 == 0
        &&& self.rodata_end % 0x1000 == 0
        &&& self.guard_start % 0x1000 == 0
        &&& self.guard_end % 0x1000 == 0
        &&& self.text_start <= self.text_end <= self.rodata_end
        &&& self.guard_start < self.guard_end
        &&& self.rodata_end <= 0x8000_0000
        &&& self.guard_end <= 0x8000_0000
    }

    /// Whether the layout is one that the tables can be built for.
    pub fn is_valid(&self) -> (r: bool)
        ensures
            r == self.wf(),
    {
        self.text_start % 0x1000 == 0 && self.text_end % 0x1000 == 0 && self.rodata_end % 0x1000
            == 0 && self.guard_start % 0x1000 == 0 && self.guard_end % 0x1000 == 0
            && self.text_start <= self.text_end && self.text_end <= self.rodata_end
            && self.guard_start < self.guard_end && self.rodata_end <= 0x8000_0000
            && self.guard_end <= 0x8000_0000
    }

    /// Index of the first 2 MiB block mapped page by page.
    pub fn first_block_index(&self) -> (r: u64)
        requires
            self.wf(),
        ensures
            r == self.first_block(),
    {
        let start = if self.text_start <= self.guard_start {
            self.text_start
        } else {
            self.guard_start
        };
        start / 0x20_0000
    }

    /// Number of 2 MiB blocks mapped page by page, that is of level 3 tables.
    pub fn paged_block_count(&self) -> (r: u64)
        requires
            self.wf(),
        ensures
            r == self.paged_blocks(),
            1 <= r <= 1024,
            self.first_block() + r <= 1024,
    {
        let end = if self.rodata_end >= self.guard_end {
            self.rodata_end
        } else {
            self.guard_end
        };
        (end - 1) / 0x20_0000 - self.first_block_index() + 1
    }

    /// The region of `address`: `None` in the guard range (unmapped), then
    /// code, read-only data, and read-write memory everywhere else.
    pub open spec fn region_of(self, address: int) -> Option<Region> {
        if self.guard_start <= address < self.guard_end {
            None
        } else if self.text_start <= address < self.text_end {
            Some(Region::Code)
        } else if self.text_end <= address < self.rodata_end {
            Some(Region::ReadOnly)
        } else {
            Some(Region::ReadWrite)
        }
    }

    /// The region of `address`.
    pub fn region(&self, address: u64) -> (r: Option<Region>)
        ensures
            r == self.region_of(address as int),
    {
        if self.guard_start <= address && address < self.guard_end {
            None
        } else if self.text_start <= address && address < self.text_end {
            Some(Region::Code)
        } else if self.text_end <= address && address < self.rodata_end {
            Some(Region::ReadOnly)
        } else {
            Some(Region::ReadWrite)
        }
    }
}

/// Entry `i` of the level 1 table: each GiB of DDR through its level 2 table
/// (the two are consecutive from `level2_address`), the upper 2 GiB devices.
pub open spec fn level1_word(i: int, level2_address: u64) -> u64 {
    if i < 2 {
        encode(table_fields((level2_address + i * 0x1000) as u64))
    } else {
        encode(memory_fields((i * 0x4000_0000) as u64, Region::Device, false))
    }
}

/// Entry `j` of the two level 2 tables, taken as one table of the 1024 blocks
/// of DDR: a block mapped page by page through its level 3 table (these are
/// consecutive from `level3_address`), any other block read-write.
pub open spec fn level2_word(j: int, layout: ImageLayout, level3_address: u64) -> u64 {
    if layout.first_block() <= j <= layout.last_block() {
        encode(table_fields((level3_address + (j - layout.first_block()) * 0x1000) as u64))
    } else {
        encode(memory_fields((j * 0x20_0000) as u64, Region::ReadWrite, false))
    }
}

/// Entry `m` of the level 3 tables, taken as one table of the pages of the
/// blocks mapped page by page: the page's region, or an invalid descriptor in
/// the guard range.
pub open spec fn level3_word(m: int, layout: ImageLayout) -> u64 {
    let address = layout.first_block() * 0x20_0000 + m * 0x1000;
    match layout.region_of(address) {
        None => encode(invalid_fields()),
        Some(region) => encode(memory_fields(address as u64, region, true)),
    }
}

/// The level 1 table, whose entries for DDR point to the two level 2 tables
/// at `level2_address` and the page after it.
pub fn level1_table(level2_address: u64) -> (t: [u64; 4])
    requires
        level2_address <= 0xffff_ffff,
    ensures
        forall|i: int| 0 <= i < 4 ==> t@[i] == level1_word(i, level2_address),
{
    let t = [
        table_descriptor(level2_address),
        table_descriptor(level2_address + 0x1000),
        memory_descriptor(0x8000_0000, Region::Device, false),
        memory_descriptor(0xc000_0000, Region::Device, false),
    ];
    assert forall|i: int| 0 <= i < 4 implies t@[i] == level1_word(i, level2_address) by {
        if i == 2 {
            assert((i * 0x4000_0000) as u64 == 0x8000_0000);
        } else if i == 3 {
            assert((i * 0x4000_0000) as u64 == 0xc000_0000);
        }
    }
    t
}

/// The two level 2 tables, one after the other (1024 entries): the blocks
/// mapped page by page point to their level 3 tables, consecutive from
/// `level3_address`.
pub fn level2_tables(layout: &ImageLayout, level3_address: u64) -> (t: Vec<u64>)
    requires
        layout.wf(),
        level3_address <= 0xffff_ffff,
    ensures
        t.len() == 1024,
        forall|j: int| 0 <= j < 1024 ==> t@[j] == level2_word(j, *layout, level3_address),
{
    let first = layout.first_block_index();
    let count = layout.paged_block_count();
    let mut t: Vec<u64> = Vec::new();
    let mut j: u64 = 0;
    while j < 1024
        invariant
            layout.wf(),
            level3_address <= 0xffff_ffff,
            j <= 1024,
            first == layout.first_block(),
            count == layout.paged_blocks(),
            first + count <= 1024,
            t.len() == j,
            forall|k: int| 0 <= k < j ==> t@[k] == level2_word(k, *layout, level3_address),
        decreases 1024 - j,
    {
        if first <= j && j < first + count {
            t.push(table_descriptor(level3_address + (j - first) * 0x1000));
        } else {
            t.push(memory_descriptor(j * 0x20_0000, Region::ReadWrite, false));
        }
        j = j + 1;
    }
    t
}

/// The level 3 tables, one after the other: one page descriptor per 4 KiB of
/// the blocks mapped page by page, invalid in the guard range.
pub fn level3_tables(layout: &ImageLayout) -> (t: Vec<u64>)
    requires
        layout.wf(),
    ensures
        t.len() == layout.paged_blocks() * 512,
        forall|m: int| 0 <= m < t.len() ==> t@[m] == level3_word(m, *layout),
{
    let first = layout.first_block_index();
    let count = layout.paged_block_count();
    let base = first * 0x20_0000;
    let n = count * 512;
    let mut t: Vec<u64> = Vec::new();
    let mut m: u64 = 0;
    while m < n
        invariant
            layout.wf(),
            m <= n,
            n == layout.paged_blocks() * 512,
            base == layout.first_block() * 0x20_0000,
            base + n * 0x1000 <= 0x8000_0000,
            t.len() == m,
            forall|k: int| 0 <= k < m ==> t@[k] == level3_word(k, *layout),
        decreases n - m,
    {
        let address = base + m * 0x1000;
        match layout.region(address) {
            None => t.push(invalid_descriptor()),
            Some(region) => t.push(memory_descriptor(address, region, true)),
        }
        m = m + 1;
    }
    t
}

/// What a descriptor means at a level of the walk (1 to 3).
pub enum Entry {
    /// Accesses fault.
    Invalid,
    /// The walk goes on in the table at `next`.
    Table { next: int },
    /// A block or page that maps to `output`, with the descriptor's fields.
    Leaf { output: int, fields: DescriptorFields },
}

/// The meaning of the descriptor `raw` at `level`: at levels 1 and 2 bit 1
/// tells a table from a block, at level 3 it must be set for a page.
pub open spec fn entry_of(raw: u64, level: int) -> Entry {
    let f = decode(raw);
    let address = f.shifted_address * 0x20_0000 + f.low_address * 0x1000;
    if !f.valid {
        Entry::Invalid
    } else if level == 3 {
        if f.table_descriptor {
            Entry::Leaf { output: address, fields: f }
        } else {
            Entry::Invalid
        }
    } else if f.table_descriptor {
        Entry::Table { next: address }
    } else if level == 1 {
        Entry::Leaf { output: (f.shifted_address / 512) * 0x4000_0000, fields: f }
    } else {
        Entry::Leaf { output: f.shifted_address * 0x20_0000, fields: f }
    }
}

/// The tables in memory: the level 1 table, the level 2 tables one after the
/// other from `level2_address`, the level 3 tables one after the other from
/// `level3_address`.
pub struct PageTables {
    pub level1: Seq<u64>,
    pub level2: Seq<u64>,
    pub level2_address: u64,
    pub level3: Seq<u64>,
    pub level3_address: u64,
}

/// The result of a translation: the output address and the fields of the
/// block or page that maps it.
pub struct Access {
    pub address: int,
    pub fields: DescriptorFields,
}

/// Which of `count` consecutive 4 KiB tables from `base` starts at `next`.
pub open spec fn table_index(base: int, next: int, count: int) -> Option<int> {
    if base <= next && (next - base) % 0x1000 == 0 && (next - base) / 0x1000 < count {
        Some((next - base) / 0x1000)
    } else {
        None
    }
}

/// The walk of the MMU for a 32-bit virtual address from the level 1 table,
/// following table descriptors into the tables given; `None` where it faults
/// (or leaves the tables given).
pub open spec fn translate(t: PageTables, va: u32) -> Option<Access> {
    let v = va as int;
    match entry_of(t.level1[v / 0x4000_0000], 1) {
        Entry::Invalid => None,
        Entry::Leaf { output, fields } => Some(Access { address: output + v % 0x4000_0000, fields }),
        Entry::Table { next } => match table_index(
            t.level2_address as int,
            next,
            t.level2.len() as int / 512,
        ) {
            None => None,
            Some(g) => match entry_of(t.level2[g * 512 + (v % 0x4000_0000) / 0x20_0000], 2) {
                Entry::Invalid => None,
                Entry::Leaf { output, fields } => Some(
                    Access { address: output + v % 0x20_0000, fields },
                ),
                Entry::Table { next } => match table_index(
                    t.level3_address as int,
                    next,
                    t.level3.len() as int / 512,
                ) {
                    None => None,
                    Some(h) => match entry_of(t.level3[h * 512 + (v % 0x20_0000) / 0x1000], 3) {
                        Entry::Leaf { output, fields } => Some(
                            Access { address: output + v % 0x1000, fields },
                        ),
                        _ => None,
                    },
                },
            },
        },
    }
}

/// The tables are the ones that `level1_table`, `level2_tables` and
/// `level3_tables` build for `layout`, and they lie, without overlap, on page
/// boundaries in the 32-bit physical address space.
pub open spec fn is_built_from(t: PageTables, layout: ImageLayout) -> bool {
    &&& layout.wf()
    &&& t.level2_address % 0x1000 == 0
    &&& t.level2_address + 2 * 0x1000 <= 0x1_0000_0000
    &&& t.level3_address % 0x1000 == 0
    &&& t.level3_address + layout.paged_blocks() * 0x1000 <= 0x1_0000_0000
    &&& (t.level2_address + 2 * 0x1000 <= t.level3_address || t.level3_address
        + layout.paged_blocks() * 0x1000 <= t.level2_address)
    &&& t.level1.len() == 4
    &&& forall|i: int| 0 <= i < 4 ==> t.level1[i] == level1_word(i, t.level2_address)
    &&& t.level2.len() == 1024
    &&& forall|j: int| 0 <= j < 1024 ==> t.level2[j] == level2_word(j, layout, t.level3_address)
    &&& t.level3.len() == layout.paged_blocks() * 512
    &&& forall|m: int| 0 <= m < t.level3.len() ==> t.level3[m] == level3_word(m, layout)
}

/// The region of a virtual address: devices above 2 GiB, the layout's regions
/// below.
pub open spec fn region_at(layout: ImageLayout, va: int) -> Option<Region> {
    if va >= 0x8000_0000 {
        Some(Region::Device)
    } else {
        layout.region_of(va)
    }
}

/// `va` lies in a block mapped page by page.
pub open spec fn in_paged_block(layout: ImageLayout, va: int) -> bool {
    va < 0x8000_0000 && layout.first_block() <= va / 0x20_0000 <= layout.last_block()
}

/// Start of the block or page that maps `va`.
pub open spec fn leaf_base(layout: ImageLayout, va: int) -> int {
    if va >= 0x8000_0000 {
        va - va % 0x4000_0000
    } else if in_paged_block(layout, va) {
        va - va % 0x1000
    } else {
        va - va % 0x20_0000
    }
}

/// The descriptor fields of an address up to 4 GiB.
proof fn lemma_address_fields(a: u64)
    requires
        a < 0x1_0000_0000,
    ensures
        get_bits(a, 21, 27) < 0x800_0000,
        get_bits(a, 12, 9) < 512,
        a % 0x1000 == 0 ==> get_bits(a, 21, 27) * 0x20_0000 + get_bits(a, 12, 9) * 0x1000 == a,
        a % 0x20_0000 == 0 ==> get_bits(a, 12, 9) == 0 && get_bits(a, 21, 27) * 0x20_0000 == a,
        a % 0x4000_0000 == 0 ==> (get_bits(a, 21, 27) / 512) * 0x4000_0000 == a,
{
    assert(((a >> 21u64) & !(0xffff_ffff_ffff_ffffu64 << 27u64)) < 0x800_0000 && ((a >> 12u64)
        & !(0xffff_ffff_ffff_ffffu64 << 9u64)) < 512 && (a % 0x1000 == 0 ==> ((a >> 21u64) & !(
    0xffff_ffff_ffff_ffffu64 << 27u64)) * 0x20_0000 + ((a >> 12u64) & !(0xffff_ffff_ffff_ffffu64
        << 9u64)) * 0x1000 == a) && (a % 0x20_0000 == 0 ==> ((a >> 12u64) & !(
    0xffff_ffff_ffff_ffffu64 << 9u64)) == 0 && ((a >> 21u64) & !(0xffff_ffff_ffff_ffffu64
        << 27u64)) * 0x20_0000 == a) && (a % 0x4000_0000 == 0 ==> (((a >> 21u64) & !(
    0xffff_ffff_ffff_ffffu64 << 27u64)) / 512) * 0x4000_0000 == a)) by (bit_vector)
        requires
            a < 0x1_0000_0000,
    ;
}

/// A block of `region` at `address`, aligned to the level's block size, is a
/// leaf that maps to `address`; at level 3 a page is.
proof fn lemma_memory_entry(address: u64, region: Region, level: int)
    requires
        address < 0x1_0000_0000,
        1 <= level <= 3,
        level == 1 ==> address % 0x4000_0000 == 0,
        level == 2 ==> address % 0x20_0000 == 0,
        level == 3 ==> address % 0x1000 == 0,
    ensures
        entry_of(encode(memory_fields(address, region, level == 3)), level) == (Entry::Leaf {
            output: address as int,
            fields: memory_fields(address, region, level == 3),
        }),
{
    lemma_address_fields(address);
    lemma_decode_encode(memory_fields(address, region, level == 3));
}

/// A table descriptor for the table at `next` is a table entry at levels 1
/// and 2.
proof fn lemma_table_entry(next: u64, level: int)
    requires
        next < 0x1_0000_0000,
        next % 0x1000 == 0,
        1 <= level <= 2,
    ensures
        entry_of(encode(table_fields(next)), level) == (Entry::Table { next: next as int }),
{
    lemma_address_fields(next);
    lemma_decode_encode(table_fields(next));
}

/// An invalid descriptor faults at every level.
proof fn lemma_invalid_entry(level: int)
    ensures
        entry_of(encode(invalid_fields()), level) == Entry::Invalid,
{
    lemma_address_fields(0);
    lemma_decode_encode(invalid_fields());
}

/// The walk through the tables built for `layout`: an address in the guard
/// range faults; every other address maps to itself, through the block or
/// page of its region.
pub proof fn lemma_translation(t: PageTables, layout: ImageLayout, va: u32)
    requires
        is_built_from(t, layout),
    ensures
        translate(t, va) == match region_at(layout, va as int) {
            None => None,
            Some(region) => Some(
                Access {
                    address: va as int,
                    fields: memory_fields(
                        leaf_base(layout, va as int) as u64,
                        region,
                        in_paged_block(layout, va as int),
                    ),
                },
            ),
        },
{
    let v = va as int;
    let i = v / 0x4000_0000;
    let first = layout.first_block();
    let last = layout.last_block();
    assert(0 <= i < 4);
    assert(0 <= first <= last < 1024);
    if i < 2 {
        let l2 = (t.level2_address + i * 0x1000) as u64;
        lemma_table_entry(l2, 1);
        assert(t.level1[i] == level1_word(i, t.level2_address));
        assert(table_index(t.level2_address as int, l2 as int, 2) == Some(i));
        let j = i * 512 + (v % 0x4000_0000) / 0x20_0000;
        assert(j == v / 0x20_0000);
        assert(0 <= j < 1024);
        assert(t.level2[j] == level2_word(j, layout, t.level3_address));
        if first <= j <= last {
            let h = j - first;
            let l3 = (t.level3_address + h * 0x1000) as u64;
            lemma_table_entry(l3, 2);
            assert(table_index(t.level3_address as int, l3 as int, layout.paged_blocks()) == Some(h));
            let m = h * 512 + (v % 0x20_0000) / 0x1000;
            let page = first * 0x20_0000 + m * 0x1000;
            assert(page == v - v % 0x1000);
            assert(0 <= m < layout.paged_blocks() * 512);
            assert(0 <= page < 0x8000_0000);
            assert(in_paged_block(layout, v));
            assert(leaf_base(layout, v) == page);
            assert(t.level3[m] == level3_word(m, layout));
            assert(layout.region_of(page) == layout.region_of(v));
            match layout.region_of(page) {
                None => {
                    lemma_invalid_entry(3);
                },
                Some(region) => {
                    lemma_memory_entry(page as u64, region, 3);
                    assert(v % 0x20_0000 % 0x1000 == v % 0x1000);
                },
            }
        } else {
            let block = j * 0x20_0000;
            assert(block == v - v % 0x20_0000);
            lemma_memory_entry(block as u64, Region::ReadWrite, 2);
            assert(!in_paged_block(layout, v));
            assert(leaf_base(layout, v) == block);
            assert(layout.region_of(v) == Some(Region::ReadWrite));
            assert(v % 0x4000_0000 % 0x20_0000 == v % 0x20_0000);
        }
    } else {
        assert((i * 0x4000_0000) as u64 == v - v % 0x4000_0000);
        assert(t.level1[i] == level1_word(i, t.level2_address));
        lemma_memory_entry((i * 0x4000_0000) as u64, Region::Device, 1);
    }
}


/// The descriptor grants write access (at EL1, or at EL0 and EL1).
pub open spec fn writable(f: DescriptorFields) -> bool {
    f.access_permissions == AccessPermissions::PrivilegedReadWrite || f.access_permissions
        == AccessPermissions::UnprivilegedReadWrite
}

/// The descriptor lets EL1 or EL0 execute what it maps.
pub open spec fn executable(f: DescriptorFields) -> bool {
    !f.privileged_execute_never || !f.unprivileged_execute_never
}

/// The mapping is flat: every address outside the guard range maps to itself.
pub proof fn lemma_identity_map(t: PageTables, layout: ImageLayout, va: u32)
    requires
        is_built_from(t, layout),
        !(layout.guard_start <= va < layout.guard_end),
    ensures
        translate(t, va) matches Some(a) && a.address == va,
{
    lemma_translation(t, layout, va);
}

/// Guard pages: every access to the guard range faults.
pub proof fn lemma_guard_pages(t: PageTables, layout: ImageLayout, va: u32)
    requires
        is_built_from(t, layout),
        layout.guard_start <= va < layout.guard_end,
    ensures
        translate(t, va) is None,
{
    lemma_translation(t, layout, va);
}

/// W^X: no address is both writable and executable.
pub proof fn lemma_write_xor_execute(t: PageTables, layout: ImageLayout, va: u32)
    requires
        is_built_from(t, layout),
    ensures
        translate(t, va) matches Some(a) ==> !(writable(a.fields) && executable(a.fields)),
{
    lemma_translation(t, layout, va);
}

/// What each address is: only code is executable, and at EL1 only; only code
/// and read-only data are read-only; the first 2 GiB are cacheable normal
/// memory (attribute set 0), the upper 2 GiB device memory (attribute set 1).
pub proof fn lemma_memory_kinds(t: PageTables, layout: ImageLayout, va: u32)
    requires
        is_built_from(t, layout),
    ensures
        translate(t, va) matches Some(a) ==> {
            &&& a.fields.attribute_index == (if va < 0x8000_0000 {
                NORMAL_MEMORY_ATTRIBUTE
            } else {
                DEVICE_MEMORY_ATTRIBUTE
            })
            &&& a.fields.unprivileged_execute_never
            &&& !a.fields.privileged_execute_never <==> (va < 0x8000_0000 && layout.text_start
                <= va < layout.text_end)
            &&& !writable(a.fields) <==> (va < 0x8000_0000 && layout.text_start <= va
                < layout.rodata_end)
        },
{
    lemma_translation(t, layout, va);
}

/// W^X holds of every block and page descriptor in the three tables, whether
/// or not a walk reaches it.
pub proof fn lemma_tables_write_xor_execute(t: PageTables, layout: ImageLayout)
    requires
        is_built_from(t, layout),
    ensures
        forall|i: int|
            0 <= i < 4 ==> (#[trigger] entry_of(t.level1[i], 1) matches Entry::Leaf { fields, .. }
                ==> !(writable(fields) && executable(fields))),
        forall|j: int|
            0 <= j < 1024 ==> (#[trigger] entry_of(t.level2[j], 2) matches Entry::Leaf { fields, .. }
                ==> !(writable(fields) && executable(fields))),
        forall|k: int|
            0 <= k < t.level3.len() ==> (#[trigger] entry_of(t.level3[k], 3) matches Entry::Leaf { fields, .. }
                ==> !(writable(fields) && executable(fields))),
{
    assert forall|i: int| 0 <= i < 4 implies (#[trigger] entry_of(t.level1[i], 1) matches Entry::Leaf {
        fields,
        ..
    } ==> !(writable(fields) && executable(fields))) by {
        if i < 2 {
            lemma_table_entry((t.level2_address + i * 0x1000) as u64, 1);
        } else {
            lemma_memory_entry((i * 0x4000_0000) as u64, Region::Device, 1);
        }
    }
    assert forall|j: int| 0 <= j < 1024 implies (#[trigger] entry_of(t.level2[j], 2) matches Entry::Leaf {
        fields,
        ..
    } ==> !(writable(fields) && executable(fields))) by {
        if layout.first_block() <= j <= layout.last_block() {
            lemma_table_entry((t.level3_address + (j - layout.first_block()) * 0x1000) as u64, 2);
        } else {
            lemma_memory_entry((j * 0x20_0000) as u64, Region::ReadWrite, 2);
        }
    }
    assert forall|k: int| 0 <= k < t.level3.len() implies (#[trigger] entry_of(t.level3[k], 3) matches Entry::Leaf {
        fields,
        ..
    } ==> !(writable(fields) && executable(fields))) by {
        let page = layout.first_block() * 0x20_0000 + k * 0x1000;
        assert(0 <= page < 0x8000_0000);
        assert(t.level3[k] == level3_word(k, layout));
        match layout.region_of(page) {
            None => lemma_invalid_entry(3),
            Some(region) => lemma_memory_entry(page as u64, region, 3),
        }
    }
}

/// What every block and page that the tables map must be for the memory to
/// be used: a valid descriptor whose access flag is set (else the first access
/// raises an Access flag fault), non-secure, not marked contiguous, and outer
/// shareable.
pub open spec fn usable_leaf(f: DescriptorFields) -> bool {
    &&& f.valid
    &&& f.access_flag
    &&& f.not_secure
    &&& !f.contiguous
    &&& f.shareability == Shareability::Outer
}

/// Every address that translates reaches a usable block or page.
pub proof fn lemma_translations_usable(t: PageTables, layout: ImageLayout, va: u32)
    requires
        is_built_from(t, layout),
    ensures
        translate(t, va) matches Some(a) ==> usable_leaf(a.fields),
{
    lemma_translation(t, layout, va);
}

/// Every block and page descriptor in the three tables is usable, whether or
/// not a walk reaches it.
pub proof fn lemma_tables_leaves_usable(t: PageTables, layout: ImageLayout)
    requires
        is_built_from(t, layout),
    ensures
        forall|i: int|
            0 <= i < 4 ==> (#[trigger] entry_of(t.level1[i], 1) matches Entry::Leaf { fields, .. }
                ==> usable_leaf(fields)),
        forall|j: int|
            0 <= j < 1024 ==> (#[trigger] entry_of(t.level2[j], 2) matches Entry::Leaf { fields, .. }
                ==> usable_leaf(fields)),
        forall|k: int|
            0 <= k < t.level3.len() ==> (#[trigger] entry_of(t.level3[k], 3) matches Entry::Leaf { fields, .. }
                ==> usable_leaf(fields)),
{
    assert forall|i: int| 0 <= i < 4 implies (#[trigger] entry_of(t.level1[i], 1) matches Entry::Leaf {
        fields,
        ..
    } ==> usable_leaf(fields)) by {
        if i < 2 {
            lemma_table_entry((t.level2_address + i * 0x1000) as u64, 1);
        } else {
            lemma_memory_entry((i * 0x4000_0000) as u64, Region::Device, 1);
        }
    }
    assert forall|j: int| 0 <= j < 1024 implies (#[trigger] entry_of(t.level2[j], 2) matches Entry::Leaf {
        fields,
        ..
    } ==> usable_leaf(fields)) by {
        if layout.first_block() <= j <= layout.last_block() {
            lemma_table_entry((t.level3_address + (j - layout.first_block()) * 0x1000) as u64, 2);
        } else {
            lemma_memory_entry((j * 0x20_0000) as u64, Region::ReadWrite, 2);
        }
    }
    assert forall|k: int| 0 <= k < t.level3.len() implies (#[trigger] entry_of(t.level3[k], 3) matches Entry::Leaf {
        fields,
        ..
    } ==> usable_leaf(fields)) by {
        let page = layout.first_block() * 0x20_0000 + k * 0x1000;
        assert(0 <= page < 0x8000_0000);
        assert(t.level3[k] == level3_word(k, layout));
        match layout.region_of(page) {
            None => lemma_invalid_entry(3),
            Some(region) => lemma_memory_entry(page as u64, region, 3),
        }
    }
}

} // verus!
