use paper_clock::codec::{DrawMode, Packing, PreparedFramebuffer};
use paper_clock::framebuffer::{Framebuffer, HEIGHT, WIDTH};

fn sample_frame() -> Framebuffer {
    let mut fb = Framebuffer::new();
    fb.set(0, 0, 0);
    fb.set(1, 0, 127);
    fb.set(2, 0, 128);
    fb.set(3, 0, 200);
    fb.set(4, 1, 0x35);
    fb.set(5, 1, 0xC9);
    fb
}

#[test]
fn binary_prepare_thresholds_on_the_top_bit() {
    let fb = sample_frame();
    let p = PreparedFramebuffer::prepare(&fb, DrawMode::DirectUpdateBinary);
    assert_eq!(p.packed.len(), (WIDTH / 2 * HEIGHT) as usize);
    assert_eq!(p.packed[0], 0x00);
    assert_eq!(p.packed[1], 0xFF);
    assert_eq!(p.packed[480 + 2], 0xF0);
    assert_eq!(p.packed[5], 0xFF);
    assert_eq!(p.mode, DrawMode::DirectUpdateBinary);
    assert_eq!(p.packing, Packing::TwoPixelsPerByte);
    assert!(p.previously_white);
    for byte in &p.packed {
        assert!(byte & 0x0F == 0 || byte & 0x0F == 15);
        assert!(byte >> 4 == 0 || byte >> 4 == 15);
    }
}

#[test]
fn grayscale_prepare_keeps_the_top_four_bits() {
    let fb = sample_frame();
    let p = PreparedFramebuffer::prepare(&fb, DrawMode::NonFlashing);
    assert_eq!(p.packed[0], 0x70);
    assert_eq!(p.packed[1], 0xC8);
    assert_eq!(p.packed[480 + 2], 0xC3);
    assert_eq!(p.packed[7], 0xFF);
    assert_eq!(p.mode, DrawMode::NonFlashing);
}

#[test]
fn difference_holds_old_level_low_and_new_level_high() {
    let old = Framebuffer::new();
    let new = sample_frame();
    let p = PreparedFramebuffer::prepare_difference(&old, &new, DrawMode::Flashing);
    assert_eq!(p.packed.len(), (WIDTH * HEIGHT) as usize);
    assert_eq!(p.packed[0], 0x0F);
    assert_eq!(p.packed[1], 0x7F);
    assert_eq!(p.packed[3], 0xCF);
    assert_eq!(p.packed[960 + 4], 0x3F);
    assert_eq!(p.packed[10], 0xFF);
    assert_eq!(p.packing, Packing::DifferencePerByte);
    assert!(!p.previously_white);
    let back = PreparedFramebuffer::prepare_difference(&new, &old, DrawMode::DirectUpdateBinary);
    assert_eq!(back.packed[0], 0xF0);
    assert_eq!(back.packed[1], 0xF0);
    assert_eq!(back.packed[2], 0xFF);
    assert_eq!(back.mode, DrawMode::DirectUpdateBinary);
}
