//! Values of the system registers that configure the MMU: the memory
//! attributes (MAIR_EL1), the translation regime (TCR_EL1) and the system
//! control (SCTLR_EL1) that turns on the MMU, the caches and W^X.

use vstd::prelude::*;

use aarch64_cpu::registers::{MAIR_EL1, SCTLR_EL1, TCR_EL1};

verus! {

/// `MAIR_EL1::{Attr0_Normal_Inner, Attr0_Normal_Outer, Attr1_Device}.val(..)`
/// of aarch64-cpu, combined with `+`: each value masked to its field (4, 4
/// and 8 bits) and shifted to its offset (0, 4 and 8), the fields or-ed.
#[verifier::external_body]
fn mair_el1_fields(attr0_inner: u64, attr0_outer: u64, attr1_device: u64) -> (r: u64)
    ensures
        r == (attr0_inner & 0xf) | ((attr0_outer & 0xf) << 4u64) | ((attr1_device & 0xff) << 8u64),
{
    (MAIR_EL1::Attr0_Normal_Inner.val(attr0_inner) + MAIR_EL1::Attr0_Normal_Outer.val(attr0_outer)
        + MAIR_EL1::Attr1_Device.val(attr1_device)).value
}

/// `TCR_EL1::{T0SZ, EPD0, IRGN0, ORGN0, SH0, TG0, EPD1, IPS}.val(..)` of
/// aarch64-cpu, combined with `+`: each value masked to its field (6, 1, 2, 2,
/// 2, 2, 1 and 3 bits) and shifted to its offset (0, 7, 8, 10, 12, 14, 23 and
/// 32), the fields or-ed.
#[verifier::external_body]
fn tcr_el1_fields(
    t0sz: u64,
    epd0: u64,
    irgn0: u64,
    orgn0: u64,
    sh0: u64,
    tg0: u64,
    epd1: u64,
    ips: u64,
) -> (r: u64)
    ensures
        r == (t0sz & 0x3f) | ((epd0 & 1) << 7u64) | ((irgn0 & 3) << 8u64) | ((orgn0 & 3) << 10u64) | ((
        sh0 & 3) << 12u64) | ((tg0 & 3) << 14u64) | ((epd1 & 1) << 23u64) | ((ips & 7) << 32u64),
{
    (TCR_EL1::T0SZ.val(t0sz) + TCR_EL1::EPD0.val(epd0) + TCR_EL1::IRGN0.val(irgn0)
        + TCR_EL1::ORGN0.val(orgn0) + TCR_EL1::SH0.val(sh0) + TCR_EL1::TG0.val(tg0)
        + TCR_EL1::EPD1.val(epd1) + TCR_EL1::IPS.val(ips)).value
}

/// `SCTLR_EL1::{M, C, I, NTWI, NTWE, WXN}.val(..)` of aarch64-cpu, combined
/// with `+`: each value masked to its one-bit field and shifted to its offset
/// (0, 2, 12, 16, 18 and 19), the fields or-ed.
#[verifier::external_body]
fn sctlr_el1_fields(m: u64, c: u64, i: u64, ntwi: u64, ntwe: u64, wxn: u64) -> (r: u64)
    ensures
        r == (m & 1) | ((c & 1) << 2u64) | ((i & 1) << 12u64) | ((ntwi & 1) << 16u64) | ((ntwe & 1)
            << 18u64) | ((wxn & 1) << 19u64),
{
    (SCTLR_EL1::M.val(m) + SCTLR_EL1::C.val(c) + SCTLR_EL1::I.val(i) + SCTLR_EL1::NTWI.val(ntwi)
        + SCTLR_EL1::NTWE.val(ntwe) + SCTLR_EL1::WXN.val(wxn)).value
}

/// MAIR_EL1: attribute set 0 is normal memory, write-back non-transient with
/// read and write allocation inside and outside (0xF each); attribute set 1
/// is device memory, non-gathering, non-reordering, no early write
/// acknowledgement (0x00).
pub fn mair_el1_value() -> (r: u64)
    ensures
        r == 0xff,
        r & 0xff == 0xff,
        (r >> 8u64) & 0xff == 0,
{
    let r = mair_el1_fields(0b1111, 0b1111, 0b0000_0000);
    assert((0b1111u64 & 0xf) | ((0b1111u64 & 0xf) << 4u64) | ((0u64 & 0xff) << 8u64) == 0xff
        && 0xffu64 & 0xff == 0xff && (0xffu64 >> 8u64) & 0xff == 0) by (bit_vector);
    r
}

/// TCR_EL1: 32-bit virtual addresses (T0SZ = 32) walked from TTBR0 with 4 KiB
/// granules (TG0 = 0b00), the walks cacheable write-back with read and write
/// allocation (IRGN0 = ORGN0 = 0b01) and inner shareable (SH0 = 0b11), walks
/// from TTBR1 disabled (EPD1 = 1), a 32-bit physical address space
/// (IPS = 0b000).
pub fn tcr_el1_value() -> (r: u64)
    ensures
        r == 0x0080_3520,
        r & 0x3f == 32,
        (r >> 14u64) & 3 == 0,
        (r >> 23u64) & 1 == 1,
{
    let r = tcr_el1_fields(32, 0, 0b01, 0b01, 0b11, 0b00, 1, 0b000);
    assert((32u64 & 0x3f) | ((0u64 & 1) << 7u64) | ((1u64 & 3) << 8u64) | ((1u64 & 3) << 10u64) | ((
    3u64 & 3) << 12u64) | ((0u64 & 3) << 14u64) | ((1u64 & 1) << 23u64) | ((0u64 & 7) << 32u64)
        == 0x0080_3520 && 0x0080_3520u64 & 0x3f == 32 && (0x0080_3520u64 >> 14u64) & 3 == 0 && (
    0x0080_3520u64 >> 23u64) & 1 == 1) by (bit_vector);
    r
}

/// SCTLR_EL1: the MMU (M), the data cache (C) and the instruction cache (I)
/// on, WFI and WFE not trapped (nTWI, nTWE), and every writable region never
/// executable (WXN).
pub fn sctlr_el1_value() -> (r: u64)
    ensures
        r == 0x000d_1005,
        r & 1 == 1,
        (r >> 2u64) & 1 == 1,
        (r >> 12u64) & 1 == 1,
        (r >> 19u64) & 1 == 1,
{
    let r = sctlr_el1_fields(1, 1, 1, 1, 1, 1);
    assert((1u64 & 1) | ((1u64 & 1) << 2u64) | ((1u64 & 1) << 12u64) | ((1u64 & 1) << 16u64) | ((
    1u64 & 1) << 18u64) | ((1u64 & 1) << 19u64) == 0x000d_1005 && 0x000d_1005u64 & 1 == 1 && (
    0x000d_1005u64 >> 2u64) & 1 == 1 && (0x000d_1005u64 >> 12u64) & 1 == 1 && (0x000d_1005u64
        >> 19u64) & 1 == 1) by (bit_vector);
    r
}

} // verus!
