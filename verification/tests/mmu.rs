use zynqmp::descriptor::{AccessPermissions, BlockDescriptor, Shareability};
use zynqmp::mmu::{
    encode_fields, invalid_descriptor, level1_table, level2_tables, level3_tables,
    memory_descriptor, shift_address, table_descriptor, ImageLayout, Region,
};
use zynqmp::registers::{mair_el1_value, sctlr_el1_value, tcr_el1_value};

fn decode(raw: u64) -> BlockDescriptor {
    BlockDescriptor::new_with_raw_value(raw)
}

const LEVEL2_ADDRESS: u64 = 0x40_0000;
const LEVEL3_ADDRESS: u64 = 0x40_2000;

fn layout() -> ImageLayout {
    ImageLayout {
        text_start: 0x0,
        text_end: 0x2_0000,
        rodata_end: 0x3_0000,
        guard_start: 0x1f_0000,
        guard_end: 0x1f_2000,
    }
}

/// Code over two blocks, read-only data into a third, the guard range in a
/// fourth.
fn wide_layout() -> ImageLayout {
    ImageLayout {
        text_start: 0x10_0000,
        text_end: 0x30_0000,
        rodata_end: 0x50_1000,
        guard_start: 0x7f_f000,
        guard_end: 0x80_0000,
    }
}

/// An image in the second GiB of DDR.
fn high_layout() -> ImageLayout {
    ImageLayout {
        text_start: 0x4000_0000,
        text_end: 0x4001_0000,
        rodata_end: 0x4002_0000,
        guard_start: 0x4020_0000,
        guard_end: 0x4020_1000,
    }
}

struct Tables {
    layout: ImageLayout,
    level1: [u64; 4],
    level2: Vec<u64>,
    level3: Vec<u64>,
}

fn tables_for(layout: ImageLayout) -> Tables {
    Tables {
        layout,
        level1: level1_table(LEVEL2_ADDRESS),
        level2: level2_tables(&layout, LEVEL3_ADDRESS),
        level3: level3_tables(&layout),
    }
}

fn tables() -> Tables {
    tables_for(layout())
}

fn next_table(d: &BlockDescriptor) -> u64 {
    (d.shifted_address() << 21) | (d.low_address() << 12)
}

/// The walk of the MMU: the output address and the leaf descriptor.
fn translate(t: &Tables, va: u32) -> Option<(u64, BlockDescriptor)> {
    let va = va as u64;
    let d1 = decode(t.level1[(va >> 30) as usize]);
    if !d1.valid() {
        return None;
    }
    if !d1.table_descriptor() {
        return Some(((d1.shifted_address() >> 9 << 30) + (va & 0x3fff_ffff), d1));
    }
    let g = ((next_table(&d1) - LEVEL2_ADDRESS) / 0x1000) as usize;
    assert!(g < 2);
    let d2 = decode(t.level2[g * 512 + ((va >> 21) & 511) as usize]);
    if !d2.valid() {
        return None;
    }
    if !d2.table_descriptor() {
        return Some(((d2.shifted_address() << 21) + (va & 0x1f_ffff), d2));
    }
    let h = ((next_table(&d2) - LEVEL3_ADDRESS) / 0x1000) as usize;
    assert!(h < t.level3.len() / 512);
    let d3 = decode(t.level3[h * 512 + ((va >> 12) & 511) as usize]);
    if !d3.valid() || !d3.table_descriptor() {
        return None;
    }
    Some((next_table(&d3) + (va & 0xfff), d3))
}

fn writable(d: &BlockDescriptor) -> bool {
    matches!(
        d.access_permissions(),
        AccessPermissions::PrivilegedReadWrite | AccessPermissions::UnprivilegedReadWrite
    )
}

fn executable(d: &BlockDescriptor) -> bool {
    !d.privileged_execute_never() || !d.unprivileged_execute_never()
}

fn sample_addresses() -> Vec<u32> {
    let mut v: Vec<u32> = (0..0x100_0000u32).step_by(0x800).collect();
    v.extend((0x4000_0000..0x4040_0000u32).step_by(0x800));
    v.extend([0x1234_5678, 0x3fff_ffff, 0x7fff_ffff, 0x8000_0000, 0xc000_1000, 0xffff_ffff]);
    v
}

/// Checks the flat mapping, the guard range and W^X at every sample address.
fn check_protection(t: &Tables) {
    let l = t.layout;
    for va in sample_addresses() {
        let a = va as u64;
        if (l.guard_start..l.guard_end).contains(&a) {
            assert!(translate(t, va).is_none(), "{va:#x}");
            continue;
        }
        let (out, d) = translate(t, va).unwrap_or_else(|| panic!("{va:#x} unmapped"));
        assert_eq!(out, a, "{va:#x}");
        assert!(!(writable(&d) && executable(&d)), "{va:#x}");
        let code = a < 0x8000_0000 && (l.text_start..l.text_end).contains(&a);
        let read_only = a < 0x8000_0000 && (l.text_start..l.rodata_end).contains(&a);
        assert_eq!(!d.privileged_execute_never(), code, "{va:#x}");
        assert_eq!(!writable(&d), read_only, "{va:#x}");
        assert_eq!(d.attribute_index(), if a < 0x8000_0000 { 0 } else { 1 });
    }
}

#[test]
fn table_words() {
    let t = tables();
    assert_eq!(t.level1[0], 0x0000_0000_0040_0003);
    assert_eq!(t.level1[1], 0x0000_0000_0040_1003);
    assert_eq!(t.level1[2], 0x0060_0000_8000_0665);
    assert_eq!(t.level1[3], 0x0060_0000_c000_0665);
    assert_eq!(t.level2.len(), 1024);
    assert_eq!(t.level2[0], 0x0000_0000_0040_2003);
    assert_eq!(t.level2[1], 0x0060_0000_0020_0621);
    assert_eq!(t.level2[511], 0x0060_0000_3fe0_0621);
    assert_eq!(t.level2[512], 0x0060_0000_4000_0621);
    assert_eq!(t.level2[1023], 0x0060_0000_7fe0_0621);
    assert_eq!(t.level3.len(), 512);
    assert_eq!(t.level3[0], 0x0040_0000_0000_06a3);
    assert_eq!(t.level3[0x1f], 0x0040_0000_0001_f6a3);
    assert_eq!(t.level3[0x20], 0x0060_0000_0002_06a3);
    assert_eq!(t.level3[0x30], 0x0060_0000_0003_0623);
    assert_eq!(t.level3[0x1f0], 0);
    assert_eq!(t.level3[0x1f1], 0);
    assert_eq!(t.level3[0x1f2], 0x0060_0000_001f_2623);
}

#[test]
fn tables_of_an_image_over_several_blocks() {
    let t = tables_for(wide_layout());
    assert_eq!(t.level3.len(), 4 * 512);
    assert_eq!(t.level2[0], 0x40_2003);
    assert_eq!(t.level2[1], 0x40_3003);
    assert_eq!(t.level2[2], 0x40_4003);
    assert_eq!(t.level2[3], 0x40_5003);
    assert_eq!(t.level2[4], 0x0060_0000_0080_0621);
    assert_eq!(t.level3[0x100], 0x0040_0000_0010_06a3);
    assert_eq!(t.level3[0x2ff], 0x0040_0000_002f_f6a3);
    assert_eq!(t.level3[0x300], 0x0060_0000_0030_06a3);
    assert_eq!(t.level3[0x501], 0x0060_0000_0050_1623);
    assert_eq!(t.level3[0x7ff], 0);
    check_protection(&t);
    let t = tables_for(high_layout());
    assert_eq!(t.level3.len(), 2 * 512);
    assert_eq!(t.level2[512], 0x40_2003);
    assert_eq!(t.level2[513], 0x40_3003);
    assert_eq!(t.level2[0], 0x0060_0000_0000_0621);
    check_protection(&t);
}

#[test]
fn mapping_is_flat_outside_the_guard_range() {
    check_protection(&tables());
}

#[test]
fn guard_pages_fault() {
    let t = tables();
    for va in [0x1f_0000u32, 0x1f_0fff, 0x1f_1000, 0x1f_1ffc] {
        assert!(translate(&t, va).is_none());
    }
    assert!(translate(&t, 0x1e_fffc).is_some());
    assert!(translate(&t, 0x1f_2000).is_some());
}

#[test]
fn no_address_is_writable_and_executable() {
    for t in [tables(), tables_for(wide_layout()), tables_for(high_layout())] {
        for va in sample_addresses() {
            if let Some((_, d)) = translate(&t, va) {
                assert!(!(writable(&d) && executable(&d)), "{va:#x}");
            }
        }
    }
}

#[test]
fn memory_kinds() {
    let t = tables();
    let (_, code) = translate(&t, 0x1_0000).unwrap();
    assert!(!code.privileged_execute_never());
    assert!(code.unprivileged_execute_never());
    assert_eq!(code.access_permissions(), AccessPermissions::PrivilegedRead);
    let (_, rodata) = translate(&t, 0x2_0000).unwrap();
    assert!(rodata.privileged_execute_never());
    assert_eq!(rodata.access_permissions(), AccessPermissions::PrivilegedRead);
    let (_, data) = translate(&t, 0x3_0000).unwrap();
    assert!(data.privileged_execute_never());
    assert_eq!(data.access_permissions(), AccessPermissions::PrivilegedReadWrite);
    assert_eq!(data.attribute_index(), 0);
    let (_, ddr) = translate(&t, 0x5000_0000).unwrap();
    assert!(ddr.privileged_execute_never());
    assert_eq!(ddr.attribute_index(), 0);
    let (_, device) = translate(&t, 0xff00_0000).unwrap();
    assert_eq!(device.attribute_index(), 1);
    assert!(device.privileged_execute_never() && device.unprivileged_execute_never());
    assert_eq!(device.access_permissions(), AccessPermissions::UnprivilegedReadWrite);
    assert_eq!(device.shareability(), Shareability::Outer);
}

#[test]
fn layout_validity() {
    assert!(layout().is_valid());
    assert!(wide_layout().is_valid());
    assert!(high_layout().is_valid());
    let mut l = layout();
    l.text_end = 0x2_0004;
    assert!(!l.is_valid());
    let mut l = layout();
    l.guard_end = l.guard_start;
    assert!(!l.is_valid());
    let mut l = layout();
    l.text_end = 0x4_0000;
    assert!(!l.is_valid());
    let mut l = layout();
    l.guard_start = 0x8000_0000;
    l.guard_end = 0x8000_1000;
    assert!(!l.is_valid());
    let l = ImageLayout { text_start: 0x60_1000, text_end: 0x62_0000, rodata_end: 0x64_0000, guard_start: 0x7f_f000, guard_end: 0x80_0000 };
    assert!(l.is_valid());
    assert_eq!(l.region(0x60_0000), Some(Region::ReadWrite));
    assert_eq!(l.region(0x60_1000), Some(Region::Code));
    assert_eq!(l.region(0x63_0000), Some(Region::ReadOnly));
    assert_eq!(l.region(0x7f_f800), None);
    let t3 = level3_tables(&l);
    assert_eq!(t3.len(), 512);
    assert_eq!(t3[0], 0x0060_0000_0060_0623);
    assert_eq!(t3[1], 0x0040_0000_0060_16a3);
    assert_eq!(t3[511], 0);
    let t2 = level2_tables(&l, 0x1000);
    assert_eq!(t2[3], 0x1003);
    // A guard range inside the code leaves those pages unmapped.
    let l = ImageLayout { text_start: 0x0, text_end: 0x4000, rodata_end: 0x4000, guard_start: 0x1000, guard_end: 0x2000 };
    assert!(l.is_valid());
    assert_eq!(l.region(0x1800), None);
    assert_eq!(level3_tables(&l)[1], 0);
}

#[test]
fn descriptors() {
    assert_eq!(invalid_descriptor(), 0);
    assert_eq!(table_descriptor(0x1234_5000), 0x1234_5003);
    assert_eq!(memory_descriptor(0x8000_0000, Region::Device, false), 0x0060_0000_8000_0665);
    assert_eq!(memory_descriptor(0x5000, Region::Code, true), 0x0040_0000_0000_56a3);
    let d = decode(memory_descriptor(0x0012_3456_7000, Region::ReadOnly, true));
    assert_eq!(d.shifted_address(), 0x0012_3456_7000 >> 21);
    assert_eq!(d.low_address(), (0x0012_3456_7000 >> 12) & 511);
    let f = decode(0x0060_0000_8000_0665);
    assert_eq!(encode_fields(zynqmp::descriptor::DescriptorFields {
        unprivileged_execute_never: f.unprivileged_execute_never(),
        privileged_execute_never: f.privileged_execute_never(),
        contiguous: f.contiguous(),
        shifted_address: f.shifted_address(),
        low_address: f.low_address(),
        access_flag: f.access_flag(),
        shareability: f.shareability(),
        access_permissions: f.access_permissions(),
        not_secure: f.not_secure(),
        attribute_index: f.attribute_index(),
        table_descriptor: f.table_descriptor(),
        valid: f.valid(),
    }), 0x0060_0000_8000_0665);
}

#[test]
fn register_values() {
    assert_eq!(mair_el1_value(), 0xff);
    assert_eq!(tcr_el1_value(), 0x0080_3520);
    assert_eq!(sctlr_el1_value(), 0x000d_1005);
}

#[test]
fn shift_address_takes_bits_21_to_47() {
    assert_eq!(shift_address(0), 0);
    assert_eq!(shift_address(0x4000_0000), 512);
    assert_eq!(shift_address(0xc000_0000), 0x600);
    assert_eq!(shift_address(0x1f_ffff), 0);
    assert_eq!(shift_address(0x20_0000), 1);
    assert_eq!(shift_address(u64::MAX), 0x7ff_ffff);
    assert_eq!(shift_address(0x0000_ffff_ffe0_0000), 0x7ff_ffff);
    assert_eq!(shift_address(0x0001_0000_0000_0000), 0);
}

#[test]
fn setter_writes_only_its_field() {
    let base = decode(0xffff_ffff_ffff_ffff);
    let d = base.with_shareability(Shareability::Reserved);
    assert_eq!(d.shareability(), Shareability::Reserved);
    assert_eq!(d.raw_value(), 0xffff_ffff_ffff_fdff);
    assert_eq!(d.access_permissions(), AccessPermissions::UnprivilegedRead);
    let d = base.with_valid(false);
    assert_eq!(d.raw_value(), 0xffff_ffff_ffff_fffe);
    assert!(!d.valid());
    assert!(d.table_descriptor());
    let d = base.with_shifted_address(0);
    assert_eq!(d.raw_value(), 0xffff_0000_001f_ffff);
    assert_eq!(d.shifted_address(), 0);
    let d = base.with_low_address(0);
    assert_eq!(d.raw_value(), 0xffff_ffff_ffe0_0fff);
    assert_eq!(d.low_address(), 0);
    let d = base.with_attribute_index(2);
    assert_eq!(d.attribute_index(), 2);
    assert_eq!(d.raw_value(), 0xffff_ffff_ffff_ffeb);
    let d = base.with_unprivileged_execute_never(false).with_privileged_execute_never(false);
    assert!(!d.unprivileged_execute_never());
    assert!(!d.privileged_execute_never());
    assert!(d.contiguous());
    assert_eq!(d.raw_value(), 0xff9f_ffff_ffff_ffff);
}

#[test]
fn getters_read_raw_word() {
    let d = decode(0x0010_0000_0000_0296);
    assert!(d.contiguous());
    assert!(!d.valid());
    assert!(d.table_descriptor());
    assert_eq!(d.attribute_index(), 5);
    assert!(!d.not_secure());
    assert_eq!(d.access_permissions(), AccessPermissions::PrivilegedRead);
    assert_eq!(d.shareability(), Shareability::Outer);
    assert!(!d.access_flag());
    let d = decode(0x0000_0000_0000_0300);
    assert_eq!(d.shareability(), Shareability::Inner);
    let d = decode(0);
    assert_eq!(d.shareability(), Shareability::NonShareable);
    assert_eq!(d.access_permissions(), AccessPermissions::PrivilegedReadWrite);
}

#[test]
fn encode_then_decode_gives_fields_back() {
    let d = BlockDescriptor::new_with_raw_value(0)
        .with_shifted_address(0x123_4567)
        .with_low_address(0x1a5)
        .with_contiguous(true)
        .with_access_permissions(AccessPermissions::UnprivilegedRead)
        .with_attribute_index(7)
        .with_table_descriptor(true);
    let e = decode(d.raw_value());
    assert_eq!(e.shifted_address(), 0x123_4567);
    assert_eq!(e.low_address(), 0x1a5);
    assert!(e.contiguous());
    assert_eq!(e.access_permissions(), AccessPermissions::UnprivilegedRead);
    assert_eq!(e.attribute_index(), 7);
    assert!(e.table_descriptor());
    assert!(!e.valid());
    assert_eq!(Shareability::Inner.raw_value(), 3);
    assert_eq!(AccessPermissions::PrivilegedRead.raw_value(), 2);
}
