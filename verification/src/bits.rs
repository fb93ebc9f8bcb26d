//! Bit-field access on 64-bit words.

use vstd::prelude::*;

verus! {

/// The mask of the `width` lowest bits.
pub open spec fn low_mask(width: u64) -> u64 {
    !(0xffff_ffff_ffff_ffffu64 << width)
}

/// The `width`-bit field that starts at bit `lo` of `raw`.
pub open spec fn get_bits(raw: u64, lo: u64, width: u64) -> u64 {
    (raw >> lo) & low_mask(width)
}

/// `raw` with the `width`-bit field at bit `lo` replaced by `value`.
pub open spec fn set_bits(raw: u64, lo: u64, width: u64, value: u64) -> u64 {
    (raw & !(low_mask(width) << lo)) | (value << lo)
}

/// The field occupies bits that fit in a 64-bit word.
pub open spec fn field_in_word(lo: u64, width: u64) -> bool {
    0 < width && width < 64 && lo + width <= 64
}

/// Two fields share no bit.
pub open spec fn fields_disjoint(lo1: u64, w1: u64, lo2: u64, w2: u64) -> bool {
    lo1 + w1 <= lo2 || lo2 + w2 <= lo1
}

/// Reading a field back after writing it gives the value written.
pub proof fn lemma_get_set_same(raw: u64, lo: u64, width: u64, value: u64)
    requires
        field_in_word(lo, width),
        value >> width == 0,
    ensures
        get_bits(set_bits(raw, lo, width, value), lo, width) == value,
{
    assert(((((raw & !(!(0xffff_ffff_ffff_ffffu64 << width) << lo)) | (value << lo)) >> lo) & !(
    0xffff_ffff_ffff_ffffu64 << width)) == value) by (bit_vector)
        requires
            0 < width < 64,
            lo + width <= 64,
            value >> width == 0,
    ;
}

/// Writing a field leaves every field that shares no bit with it unchanged.
pub proof fn lemma_get_set_other(
    raw: u64,
    lo: u64,
    width: u64,
    value: u64,
    lo2: u64,
    width2: u64,
)
    requires
        field_in_word(lo, width),
        field_in_word(lo2, width2),
        fields_disjoint(lo, width, lo2, width2),
        value >> width == 0,
    ensures
        get_bits(set_bits(raw, lo, width, value), lo2, width2) == get_bits(raw, lo2, width2),
{
    assert(((((raw & !(!(0xffff_ffff_ffff_ffffu64 << width) << lo)) | (value << lo)) >> lo2) & !(
    0xffff_ffff_ffff_ffffu64 << width2)) == ((raw >> lo2) & !(0xffff_ffff_ffff_ffffu64 << width2)))
        by (bit_vector)
        requires
            0 < width < 64,
            lo + width <= 64,
            0 < width2 < 64,
            lo2 + width2 <= 64,
            lo + width <= lo2 || lo2 + width2 <= lo,
            value >> width == 0,
    ;
}

/// Reads the `width`-bit field at bit `lo`.
pub fn read_bits(raw: u64, lo: u64, width: u64) -> (r: u64)
    requires
        field_in_word(lo, width),
    ensures
        r == get_bits(raw, lo, width),
        r >> width == 0,
{
    let r = (raw >> lo) & !(0xffff_ffff_ffff_ffffu64 << width);
    assert(((raw >> lo) & !(0xffff_ffff_ffff_ffffu64 << width)) >> width == 0) by (bit_vector)
        requires
            width < 64,
    ;
    r
}

/// Replaces the `width`-bit field at bit `lo` by `value`.
pub fn write_bits(raw: u64, lo: u64, width: u64, value: u64) -> (r: u64)
    requires
        field_in_word(lo, width),
    ensures
        r == set_bits(raw, lo, width, value),
{
    (raw & !(!(0xffff_ffff_ffff_ffffu64 << width) << lo)) | (value << lo)
}

/// Both facts on one write: the written field reads back, every disjoint field is
/// unchanged.
pub proof fn lemma_set_bits_facts(raw: u64, lo: u64, width: u64, value: u64)
    requires
        field_in_word(lo, width),
        value >> width == 0,
    ensures
        get_bits(set_bits(raw, lo, width, value), lo, width) == value,
        forall|lo2: u64, width2: u64|
            field_in_word(lo2, width2) && fields_disjoint(lo, width, lo2, width2) ==> #[trigger]
            get_bits(set_bits(raw, lo, width, value), lo2, width2) == get_bits(raw, lo2, width2),
{
    lemma_get_set_same(raw, lo, width, value);
    assert forall|lo2: u64, width2: u64|
        field_in_word(lo2, width2) && fields_disjoint(lo, width, lo2, width2) implies #[trigger]
        get_bits(set_bits(raw, lo, width, value), lo2, width2) == get_bits(raw, lo2, width2) by {
        lemma_get_set_other(raw, lo, width, value, lo2, width2);
    }
}

/// Small values fit in narrow fields.
pub proof fn lemma_fits(value: u64)
    ensures
        value < 2 ==> value >> 1 == 0,
        value < 4 ==> value >> 2 == 0,
        value < 8 ==> value >> 3 == 0,
        value < 512 ==> value >> 9 == 0,
        value < 0x800_0000 ==> value >> 27 == 0,
{
    assert((value < 2 ==> value >> 1u64 == 0) && (value < 4 ==> value >> 2u64 == 0) && (value < 8
        ==> value >> 3u64 == 0) && (value < 512 ==> value >> 9u64 == 0) && (value < 0x800_0000
        ==> value >> 27u64 == 0)) by (bit_vector);
}

/// What a field read gives is below the field's range.
pub proof fn lemma_read_bound(value: u64)
    ensures
        value >> 3 == 0 ==> value < 8,
        value >> 9 == 0 ==> value < 512,
        value >> 27 == 0 ==> value < 0x800_0000,
{
    assert((value >> 3u64 == 0 ==> value < 8) && (value >> 9u64 == 0 ==> value < 512) && (value
        >> 27u64 == 0 ==> value < 0x800_0000)) by (bit_vector);
}

} // verus!
