//! Descriptors of the AArch64 translation tables: blocks, pages and tables
//! (Section D8.3 of the Arm Architecture Reference Manual).

use vstd::prelude::*;

use crate::bits::{
    field_in_word, fields_disjoint, get_bits, lemma_get_set_other, lemma_get_set_same, read_bits,
    set_bits, write_bits,
};

verus! {

/// Shareability of a memory region (bits 8..=9).
#[derive(Clone, Copy, Debug, PartialEq, Eq, Structural)]
pub enum Shareability {
    NonShareable,
    Reserved,
    Outer,
    Inner,
}

/// Data access permissions of a memory region (bits 6..=7).
#[derive(Clone, Copy, Debug, PartialEq, Eq, Structural)]
pub enum AccessPermissions {
    PrivilegedReadWrite,
    UnprivilegedReadWrite,
    PrivilegedRead,
    UnprivilegedRead,
}

pub open spec fn shareability_bits(s: Shareability) -> u64 {
    match s {
        Shareability::NonShareable => 0,
        Shareability::Reserved => 1,
        Shareability::Outer => 2,
        Shareability::Inner => 3,
    }
}

pub open spec fn shareability_of(bits: u64) -> Shareability {
    if bits == 0 {
        Shareability::NonShareable
    } else if bits == 1 {
        Shareability::Reserved
    } else if bits == 2 {
        Shareability::Outer
    } else {
        Shareability::Inner
    }
}

pub open spec fn access_permissions_bits(a: AccessPermissions) -> u64 {
    match a {
        AccessPermissions::PrivilegedReadWrite => 0,
        AccessPermissions::UnprivilegedReadWrite => 1,
        AccessPermissions::PrivilegedRead => 2,
        AccessPermissions::UnprivilegedRead => 3,
    }
}

pub open spec fn access_permissions_of(bits: u64) -> AccessPermissions {
    if bits == 0 {
        AccessPermissions::PrivilegedReadWrite
    } else if bits == 1 {
        AccessPermissions::UnprivilegedReadWrite
    } else if bits == 2 {
        AccessPermissions::PrivilegedRead
    } else {
        AccessPermissions::UnprivilegedRead
    }
}

impl Shareability {
    /// The two-bit encoding of the shareability.
    pub fn raw_value(self) -> (r: u64)
        ensures
            r == shareability_bits(self),
            shareability_of(r) == self,
    {
        match self {
            Shareability::NonShareable => 0,
            Shareability::Reserved => 1,
            Shareability::Outer => 2,
            Shareability::Inner => 3,
        }
    }
}

impl AccessPermissions {
    /// The two-bit encoding of the access permissions.
    pub fn raw_value(self) -> (r: u64)
        ensures
            r == access_permissions_bits(self),
            access_permissions_of(r) == self,
    {
        match self {
            AccessPermissions::PrivilegedReadWrite => 0,
            AccessPermissions::UnprivilegedReadWrite => 1,
            AccessPermissions::PrivilegedRead => 2,
            AccessPermissions::UnprivilegedRead => 3,
        }
    }
}

pub const UNPRIVILEGED_EXECUTE_NEVER_BIT: u64 = 54;
pub const PRIVILEGED_EXECUTE_NEVER_BIT: u64 = 53;
pub const CONTIGUOUS_BIT: u64 = 52;
pub const SHIFTED_ADDRESS_LO: u64 = 21;
pub const SHIFTED_ADDRESS_WIDTH: u64 = 27;
pub const LOW_ADDRESS_LO: u64 = 12;
pub const LOW_ADDRESS_WIDTH: u64 = 9;
pub const ACCESS_FLAG_BIT: u64 = 10;
pub const SHAREABILITY_LO: u64 = 8;
pub const ACCESS_PERMISSIONS_LO: u64 = 6;
pub const NOT_SECURE_BIT: u64 = 5;
pub const ATTRIBUTE_INDEX_LO: u64 = 2;
pub const ATTRIBUTE_INDEX_WIDTH: u64 = 3;
pub const TABLE_DESCRIPTOR_BIT: u64 = 1;
pub const VALID_BIT: u64 = 0;

/// The fields of a descriptor, as the hardware reads them.
pub struct DescriptorFields {
    pub unprivileged_execute_never: bool,
    pub privileged_execute_never: bool,
    pub contiguous: bool,
    /// Bits 21..=47 of the output address (or of the next-level table's
    /// address, in a table descriptor).
    pub shifted_address: u64,
    /// Bits 12..=20 of the output address of a page (or of the next-level
    /// table's address); zero in a block descriptor.
    pub low_address: u64,
    pub access_flag: bool,
    pub shareability: Shareability,
    pub access_permissions: AccessPermissions,
    pub not_secure: bool,
    /// Index into the memory attributes of MAIR_EL1.
    pub attribute_index: u64,
    pub table_descriptor: bool,
    pub valid: bool,
}

pub open spec fn flag(raw: u64, bit: u64) -> bool {
    get_bits(raw, bit, 1) == 1
}

pub open spec fn bit_of(b: bool) -> u64 {
    if b {
        1
    } else {
        0
    }
}

/// The fields that a raw descriptor word holds.
pub open spec fn decode(raw: u64) -> DescriptorFields {
    DescriptorFields {
        unprivileged_execute_never: flag(raw, 54),
        privileged_execute_never: flag(raw, 53),
        contiguous: flag(raw, 52),
        shifted_address: get_bits(raw, 21, 27),
        low_address: get_bits(raw, 12, 9),
        access_flag: flag(raw, 10),
        shareability: shareability_of(get_bits(raw, 8, 2)),
        access_permissions: access_permissions_of(get_bits(raw, 6, 2)),
        not_secure: flag(raw, 5),
        attribute_index: get_bits(raw, 2, 3),
        table_descriptor: flag(raw, 1),
        valid: flag(raw, 0),
    }
}

/// A translation table descriptor (block, page or table): a 64-bit word read
/// as the fields of `decode`.
#[derive(Clone, Copy, Debug)]
pub struct BlockDescriptor {
    raw: u64,
}

impl View for BlockDescriptor {
    type V = DescriptorFields;

    closed spec fn view(&self) -> DescriptorFields {
        decode(self.raw)
    }
}

impl BlockDescriptor {
    /// The raw descriptor word.
    pub closed spec fn word(&self) -> u64 {
        self.raw
    }

    /// The view is the decoding of the raw word.
    pub broadcast proof fn lemma_view_is_decode(d: BlockDescriptor)
        ensures
            #[trigger] d@ == decode(d.word()),
    {
    }

    /// A descriptor holding the given raw word.
    pub fn new_with_raw_value(raw: u64) -> (r: Self)
        ensures
            r.word() == raw,
            r@ == decode(raw),
    {
        BlockDescriptor { raw }
    }

    /// The raw descriptor word.
    pub fn raw_value(&self) -> (r: u64)
        ensures
            r == self.word(),
    {
        self.raw
    }

    fn with_field(self, lo: u64, width: u64, value: u64) -> (r: Self)
        requires
            field_in_word(lo, width),
            value >> width == 0,
        ensures
            r.raw == set_bits(self.raw, lo, width, value),
            get_bits(r.raw, lo, width) == value,
            forall|lo2: u64, width2: u64|
                field_in_word(lo2, width2) && fields_disjoint(lo, width, lo2, width2) ==> #[trigger]
                get_bits(r.raw, lo2, width2) == get_bits(self.raw, lo2, width2),
    {
        let raw = write_bits(self.raw, lo, width, value);
        proof {
            lemma_get_set_same(self.raw, lo, width, value);
            assert forall|lo2: u64, width2: u64|
                field_in_word(lo2, width2) && fields_disjoint(
                    lo,
                    width,
                    lo2,
                    width2,
                ) implies #[trigger] get_bits(raw, lo2, width2) == get_bits(
                self.raw,
                lo2,
                width2,
            ) by {
                lemma_get_set_other(self.raw, lo, width, value, lo2, width2);
            }
        }
        BlockDescriptor { raw }
    }

    fn with_flag(self, bit: u64, value: bool) -> (r: Self)
        requires
            bit < 64,
        ensures
            r.raw == set_bits(self.raw, bit, 1, bit_of(value)),
            flag(r.raw, bit) == value,
            forall|lo2: u64, width2: u64|
                field_in_word(lo2, width2) && fields_disjoint(bit, 1, lo2, width2) ==> #[trigger]
                get_bits(r.raw, lo2, width2) == get_bits(self.raw, lo2, width2),
    {
        let v: u64 = if value {
            1
        } else {
            0
        };
        assert(v >> 1u64 == 0) by (bit_vector)
            requires
                v == 0 || v == 1,
        ;
        self.with_field(bit, 1, v)
    }

    fn flag_at(&self, bit: u64) -> (r: bool)
        requires
            bit < 64,
        ensures
            r == flag(self.raw, bit),
    {
        read_bits(self.raw, bit, 1) == 1
    }

    pub fn unprivileged_execute_never(&self) -> (r: bool)
        ensures
            r == self@.unprivileged_execute_never,
    {
        self.flag_at(UNPRIVILEGED_EXECUTE_NEVER_BIT)
    }

    pub fn privileged_execute_never(&self) -> (r: bool)
        ensures
            r == self@.privileged_execute_never,
    {
        self.flag_at(PRIVILEGED_EXECUTE_NEVER_BIT)
    }

    pub fn contiguous(&self) -> (r: bool)
        ensures
            r == self@.contiguous,
    {
        self.flag_at(CONTIGUOUS_BIT)
    }

    pub fn shifted_address(&self) -> (r: u64)
        ensures
            r == self@.shifted_address,
            r < 0x800_0000,
    {
        let r = read_bits(self.raw, SHIFTED_ADDRESS_LO, SHIFTED_ADDRESS_WIDTH);
        assert(r >> 27u64 == 0 ==> r < 0x800_0000) by (bit_vector);
        r
    }

    pub fn low_address(&self) -> (r: u64)
        ensures
            r == self@.low_address,
            r < 512,
    {
        let r = read_bits(self.raw, LOW_ADDRESS_LO, LOW_ADDRESS_WIDTH);
        assert(r >> 9u64 == 0 ==> r < 512) by (bit_vector);
        r
    }

    pub fn access_flag(&self) -> (r: bool)
        ensures
            r == self@.access_flag,
    {
        self.flag_at(ACCESS_FLAG_BIT)
    }

    pub fn shareability(&self) -> (r: Shareability)
        ensures
            r == self@.shareability,
    {
        let b = read_bits(self.raw, SHAREABILITY_LO, 2);
        if b == 0 {
            Shareability::NonShareable
        } else if b == 1 {
            Shareability::Reserved
        } else if b == 2 {
            Shareability::Outer
        } else {
            Shareability::Inner
        }
    }

    pub fn access_permissions(&self) -> (r: AccessPermissions)
        ensures
            r == self@.access_permissions,
    {
        let b = read_bits(self.raw, ACCESS_PERMISSIONS_LO, 2);
        if b == 0 {
            AccessPermissions::PrivilegedReadWrite
        } else if b == 1 {
            AccessPermissions::UnprivilegedReadWrite
        } else if b == 2 {
            AccessPermissions::PrivilegedRead
        } else {
            AccessPermissions::UnprivilegedRead
        }
    }

    pub fn not_secure(&self) -> (r: bool)
        ensures
            r == self@.not_secure,
    {
        self.flag_at(NOT_SECURE_BIT)
    }

    pub fn attribute_index(&self) -> (r: u64)
        ensures
            r == self@.attribute_index,
            r < 8,
    {
        let r = read_bits(self.raw, ATTRIBUTE_INDEX_LO, ATTRIBUTE_INDEX_WIDTH);
        assert(r >> 3u64 == 0 ==> r < 8) by (bit_vector);
        r
    }

    pub fn table_descriptor(&self) -> (r: bool)
        ensures
            r == self@.table_descriptor,
    {
        self.flag_at(TABLE_DESCRIPTOR_BIT)
    }

    pub fn valid(&self) -> (r: bool)
        ensures
            r == self@.valid,
    {
        self.flag_at(VALID_BIT)
    }

    pub fn with_unprivileged_execute_never(self, value: bool) -> (r: Self)
        ensures
            r.word() == set_bits(self.word(), 54, 1, bit_of(value)),
            r@ == (DescriptorFields { unprivileged_execute_never: value, ..self@ }),
    {
        self.with_flag(UNPRIVILEGED_EXECUTE_NEVER_BIT, value)
    }

    pub fn with_privileged_execute_never(self, value: bool) -> (r: Self)
        ensures
            r.word() == set_bits(self.word(), 53, 1, bit_of(value)),
            r@ == (DescriptorFields { privileged_execute_never: value, ..self@ }),
    {
        self.with_flag(PRIVILEGED_EXECUTE_NEVER_BIT, value)
    }

    pub fn with_contiguous(self, value: bool) -> (r: Self)
        ensures
            r.word() == set_bits(self.word(), 52, 1, bit_of(value)),
            r@ == (DescriptorFields { contiguous: value, ..self@ }),
    {
        self.with_flag(CONTIGUOUS_BIT, value)
    }

    pub fn with_access_flag(self, value: bool) -> (r: Self)
        ensures
            r.word() == set_bits(self.word(), 10, 1, bit_of(value)),
            r@ == (DescriptorFields { access_flag: value, ..self@ }),
    {
        self.with_flag(ACCESS_FLAG_BIT, value)
    }

    pub fn with_not_secure(self, value: bool) -> (r: Self)
        ensures
            r.word() == set_bits(self.word(), 5, 1, bit_of(value)),
            r@ == (DescriptorFields { not_secure: value, ..self@ }),
    {
        self.with_flag(NOT_SECURE_BIT, value)
    }

    pub fn with_table_descriptor(self, value: bool) -> (r: Self)
        ensures
            r.word() == set_bits(self.word(), 1, 1, bit_of(value)),
            r@ == (DescriptorFields { table_descriptor: value, ..self@ }),
    {
        self.with_flag(TABLE_DESCRIPTOR_BIT, value)
    }

    pub fn with_valid(self, value: bool) -> (r: Self)
        ensures
            r.word() == set_bits(self.word(), 0, 1, bit_of(value)),
            r@ == (DescriptorFields { valid: value, ..self@ }),
    {
        self.with_flag(VALID_BIT, value)
    }

    /// Sets bits 21..=47 of the output address; `value` holds 27 bits.
    pub fn with_shifted_address(self, value: u32) -> (r: Self)
        requires
            value < 0x800_0000,
        ensures
            r.word() == set_bits(self.word(), 21, 27, value as u64),
            r@ == (DescriptorFields { shifted_address: value as u64, ..self@ }),
    {
        let v = value as u64;
        assert(v < 0x800_0000 ==> v >> 27u64 == 0) by (bit_vector);
        self.with_field(SHIFTED_ADDRESS_LO, SHIFTED_ADDRESS_WIDTH, v)
    }

    pub fn with_shareability(self, value: Shareability) -> (r: Self)
        ensures
            r.word() == set_bits(self.word(), 8, 2, shareability_bits(value)),
            r@ == (DescriptorFields { shareability: value, ..self@ }),
    {
        let v = value.raw_value();
        assert(v < 4 ==> v >> 2u64 == 0) by (bit_vector);
        self.with_field(SHAREABILITY_LO, 2, v)
    }

    pub fn with_access_permissions(self, value: AccessPermissions) -> (r: Self)
        ensures
            r.word() == set_bits(self.word(), 6, 2, access_permissions_bits(value)),
            r@ == (DescriptorFields { access_permissions: value, ..self@ }),
    {
        let v = value.raw_value();
        assert(v < 4 ==> v >> 2u64 == 0) by (bit_vector);
        self.with_field(ACCESS_PERMISSIONS_LO, 2, v)
    }

    /// Sets the index into MAIR_EL1; `value` holds 3 bits.
    pub fn with_attribute_index(self, value: u8) -> (r: Self)
        requires
            value < 8,
        ensures
            r.word() == set_bits(self.word(), 2, 3, value as u64),
            r@ == (DescriptorFields { attribute_index: value as u64, ..self@ }),
    {
        let v = value as u64;
        assert(v < 8 ==> v >> 3u64 == 0) by (bit_vector);
        self.with_field(ATTRIBUTE_INDEX_LO, ATTRIBUTE_INDEX_WIDTH, v)
    }

    /// Sets bits 12..=20 of the output (or next table) address; `value` holds
    /// 9 bits.
    pub fn with_low_address(self, value: u16) -> (r: Self)
        requires
            value < 512,
        ensures
            r.word() == set_bits(self.word(), 12, 9, value as u64),
            r@ == (DescriptorFields { low_address: value as u64, ..self@ }),
    {
        let v = value as u64;
        assert(v < 512 ==> v >> 9u64 == 0) by (bit_vector);
        self.with_field(LOW_ADDRESS_LO, LOW_ADDRESS_WIDTH, v)
    }
}

} // verus!
