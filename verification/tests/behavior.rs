//! Scenario tests: known check values, chunked streaming, reset, repeated
//! finalization, empty input, and the partial-byte update.

use crc_all::{Crc, CrcAlgo};

#[test]
fn crc5_usb_repeated_updates() {
    let data = b"123456789".as_ref();
    let mut crc5_usb = Crc::<u8>::new(0x05, 5, 0x1f, 0x1f, true);
    assert_eq!(crc5_usb.update(data), 0x19);
    assert_eq!(crc5_usb.update(data), 0x03);
    crc5_usb.init();
    assert_eq!(crc5_usb.update(data), 0x19);
}

#[test]
fn crc11_umts_descriptor() {
    let algo = CrcAlgo::<u16>::new(0x307, 11, 0, 0, false);
    let crc = &mut 0u16;
    algo.init_crc(crc);
    assert_eq!(algo.update_crc(crc, b"123456789".as_ref()), 0x061);
}

#[test]
fn chunked_update_reflected() {
    let mut whole = Crc::<u32>::new(0x04c11db7, 32, 0xffffffff, 0xffffffff, true);
    let one_shot = whole.update(b"123456789".as_ref());
    let mut split = Crc::<u32>::new(0x04c11db7, 32, 0xffffffff, 0xffffffff, true);
    split.update(b"1234".as_ref());
    let chunked = split.update(b"56789".as_ref());
    assert_eq!(one_shot, 0xcbf43926);
    assert_eq!(chunked, one_shot);
}

#[test]
fn chunked_update_normal() {
    let mut whole = Crc::<u16>::new(0x1021, 16, 0, 0, false);
    let one_shot = whole.update(b"123456789".as_ref());
    let mut split = Crc::<u16>::new(0x1021, 16, 0, 0, false);
    split.update(b"1234".as_ref());
    let chunked = split.update(b"56789".as_ref());
    assert_eq!(one_shot, 0x31c3);
    assert_eq!(chunked, one_shot);
}

#[test]
fn chunked_update_with_padding_bits() {
    // width 11 in a 16-bit register: five padding bits, non-reflected.
    let mut whole = Crc::<u16>::new(0x307, 11, 0, 0, false);
    let one_shot = whole.update(b"123456789".as_ref());
    let mut split = Crc::<u16>::new(0x307, 11, 0, 0, false);
    split.update(b"1234".as_ref());
    let chunked = split.update(b"56789".as_ref());
    assert_eq!(one_shot, 0x061);
    assert_eq!(chunked, one_shot);
}

#[test]
fn finalize_is_repeatable() {
    let mut crc = Crc::<u16>::new(0x1021, 16, 0xffff, 0, false);
    let from_update = crc.update(b"123456789".as_ref());
    let first = crc.finish();
    let second = crc.finish();
    assert_eq!(from_update, 0x29b1);
    assert_eq!(first, from_update);
    assert_eq!(second, first);
}

#[test]
fn empty_input_checksum() {
    let mut crc32 = Crc::<u32>::new(0x04c11db7, 32, 0xffffffff, 0xffffffff, true);
    assert_eq!(crc32.finish(), 0x00000000);
    assert_eq!(crc32.update(b"".as_ref()), 0x00000000);
    let mut crc16 = Crc::<u16>::new(0x1021, 16, 0xffff, 0, false);
    assert_eq!(crc16.finish(), 0xffff);
    assert_eq!(crc16.update(b"".as_ref()), 0xffff);
}

#[test]
fn reset_restores_fresh_behavior() {
    let data = b"123456789".as_ref();
    let mut crc = Crc::<u16>::new(0x8005, 16, 0, 0, true);
    crc.update(b"some earlier stream".as_ref());
    crc.init();
    assert_eq!(crc.update(data), 0xbb3d);
    let mut fresh = Crc::<u16>::new(0x8005, 16, 0, 0, true);
    assert_eq!(fresh.update(data), 0xbb3d);
}

#[test]
fn deterministic_across_instances() {
    let data = b"123456789".as_ref();
    let mut a = Crc::<u64>::new(0x42f0e1eba9ea3693, 64, 0xffffffffffffffff, 0xffffffffffffffff, true);
    let mut b = Crc::<u64>::new(0x42f0e1eba9ea3693, 64, 0xffffffffffffffff, 0xffffffffffffffff, true);
    let va = a.update(data);
    let vb = b.update(data);
    assert_eq!(va, 0x995dc9bbdf1939fa);
    assert_eq!(va, vb);
}

#[test]
fn known_vector_crc8_on_hex_digest() {
    let mut crc = Crc::<u8>::new(0x07, 8, 0x00, 0x00, false);
    assert_eq!(crc.update(b"c4ca4238a0b923820dcc509a6f75849b".as_ref()), 0x47);
}

#[test]
fn known_vector_crc16_ibm_sdlc() {
    let mut crc = Crc::<u16>::new(0x1021, 16, 0xffff, 0xffff, true);
    assert_eq!(crc.update(b"123456789".as_ref()), 0x906e);
}

#[test]
fn known_vector_crc12_umts_postprocessed() {
    let mut crc = Crc::<u16>::new(0x80f, 12, 0, 0, false);
    let raw = crc.update(b"123456789".as_ref());
    assert_eq!(raw.reverse_bits() >> 4, 0xdaf);
}

#[test]
fn update_bits_partial_byte() {
    // Four remaining rounds of 0b0101 under poly 0x07, worked out by hand.
    let mut crc = Crc::<u8>::new(0x07, 8, 0x00, 0x00, false);
    assert_eq!(crc.update_bits(0xa0, 4), 0x36);
}

#[test]
fn update_bits_of_zero_count_equals_full_byte() {
    let mut by_bytes = Crc::<u16>::new(0x1021, 16, 0, 0, false);
    let whole = by_bytes.update(b"123456789".as_ref());
    let mut by_bits = Crc::<u16>::new(0x1021, 16, 0, 0, false);
    by_bits.update(b"12345678".as_ref());
    let mixed = by_bits.update_bits(b'9', 0);
    assert_eq!(whole, 0x31c3);
    assert_eq!(mixed, whole);
}

#[test]
fn update_bits_descriptor() {
    let algo = CrcAlgo::<u8>::new(0x07, 8, 0x00, 0x00, false);
    let crc = &mut 0u8;
    algo.init_crc(crc);
    assert_eq!(algo.update_bits_crc(crc, 0xa0, 4), 0x36);
    assert_eq!(algo.finish_crc(crc), 0x36);
}

#[test]
fn descriptor_shared_by_computations() {
    let algo = CrcAlgo::<u32>::new(0x04c11db7, 32, 0xffffffff, 0xffffffff, true);
    let first = &mut 0u32;
    let second = &mut 0u32;
    algo.init_crc(first);
    algo.init_crc(second);
    assert_eq!(algo.update_crc(first, b"123456789".as_ref()), 0xcbf43926);
    assert_eq!(algo.update_crc(second, b"123456789".as_ref()), 0xcbf43926);
}
