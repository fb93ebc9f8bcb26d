use zynqmp::newlib::{sbrk, write_len, Heap};
use zynqmp::reset::{soft_reset, soft_reset_register, CrlApbRegister, CrlWprot, RegisterWrite, ResetCtrl, ResetStep};

#[test]
fn sbrk_hands_out_consecutive_blocks() {
    let mut heap = Heap::new(100);
    assert_eq!(sbrk(&mut heap, 10), Some(0));
    assert_eq!(sbrk(&mut heap, 30), Some(10));
    assert_eq!(sbrk(&mut heap, 0), Some(40));
    assert_eq!(sbrk(&mut heap, 60), Some(40));
    assert_eq!(heap.allocated, 100);
    assert_eq!(sbrk(&mut heap, 1), None);
    assert_eq!(sbrk(&mut heap, 0), Some(100));
    assert_eq!(heap.allocated, 100);
}

#[test]
fn sbrk_refuses_what_does_not_fit() {
    let mut heap = Heap::new(16);
    assert_eq!(sbrk(&mut heap, 17), None);
    assert_eq!(heap.allocated, 0);
    assert_eq!(sbrk(&mut heap, 16), Some(0));
    assert_eq!(heap.allocated, 16);
}

#[test]
fn sbrk_refuses_negative_sizes() {
    let mut heap = Heap::new(16);
    assert_eq!(sbrk(&mut heap, -1), None);
    assert_eq!(sbrk(&mut heap, i32::MIN), None);
    assert_eq!(heap.allocated, 0);
    assert_eq!(heap.size, 16);
}

#[test]
fn sbrk_refuses_on_overflow() {
    let mut heap = Heap { allocated: usize::MAX - 2, size: usize::MAX };
    assert_eq!(sbrk(&mut heap, 5), None);
    assert_eq!(heap.allocated, usize::MAX - 2);
    assert_eq!(sbrk(&mut heap, 2), Some(usize::MAX - 2));
    assert_eq!(heap.allocated, usize::MAX);
}

#[test]
fn sbrk_blocks_never_overlap() {
    let mut heap = Heap::new(1000);
    let requests = [7, -3, 100, 0, 900, 42, 1, 500, 1];
    let mut blocks: Vec<(usize, usize)> = Vec::new();
    for n in requests {
        if let Some(start) = sbrk(&mut heap, n) {
            blocks.push((start, start + n as usize));
        }
        assert!(heap.allocated <= heap.size);
    }
    assert_eq!(blocks, vec![(0, 7), (7, 107), (107, 107), (107, 149), (149, 150), (150, 650), (650, 651)]);
    for w in blocks.windows(2) {
        assert!(w[0].1 <= w[1].0);
    }
}

#[test]
fn write_reports_bytes_written() {
    assert_eq!(zynqmp::newlib::write(12), 12);
    assert_eq!(zynqmp::newlib::write(0), 0);
    assert_eq!(zynqmp::newlib::write(-5), 0);
    assert_eq!(zynqmp::newlib::write(i32::MIN), 0);
    assert_eq!(zynqmp::newlib::write(i32::MAX), i32::MAX);
    assert_eq!(write_len(12), Some(12));
    assert_eq!(write_len(0), Some(0));
    assert_eq!(write_len(-1), None);
    assert_eq!(write_len(i32::MAX), Some(i32::MAX as usize));
}

#[test]
fn soft_reset_unprotects_then_resets() {
    assert_eq!(soft_reset_register(ResetStep::Unprotect), CrlApbRegister::CrlWprot);
    assert_eq!(soft_reset_register(ResetStep::Reset), CrlApbRegister::ResetCtrl);
    let (step, w) = soft_reset(ResetStep::Unprotect, 0x0000_0001);
    assert_eq!(step, ResetStep::Reset);
    assert_eq!(w, RegisterWrite { register: CrlApbRegister::CrlWprot, value: 0 });
    let (step, w) = soft_reset(step, 0x0000_0002);
    assert_eq!(step, ResetStep::Reset);
    assert_eq!(w, RegisterWrite { register: CrlApbRegister::ResetCtrl, value: 0x12 });
    let (step, w) = soft_reset(step, 0xffff_ffff);
    assert_eq!(step, ResetStep::Reset);
    assert_eq!(w, RegisterWrite { register: CrlApbRegister::ResetCtrl, value: 0xffff_ffff });
    let (_, w) = soft_reset(ResetStep::Unprotect, 0xffff_ffff);
    assert_eq!(w.value, 0xffff_fffe);
}

#[test]
fn register_bits() {
    assert_eq!(CrlWprot { raw: 0xf0 }.with_active(true).raw, 0xf1);
    assert_eq!(CrlWprot { raw: 0xf1 }.with_active(false).raw, 0xf0);
    assert_eq!(ResetCtrl { raw: 0x1 }.with_soft_reset(true).raw, 0x11);
    assert_eq!(ResetCtrl { raw: 0x11 }.with_soft_reset(false).raw, 0x1);
}
