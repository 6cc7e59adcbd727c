use usboot::amlogic::checksum::amls_checksum;
use usboot::amlogic::encoding::{pack_u32x4, push_u16_le, push_u32_le};

#[test]
fn pack_u32x4_is_little_endian() {
    let v = pack_u32x4(1, 0x1234_5678, 0, 0xffff_ffff);
    assert_eq!(
        v,
        vec![1, 0, 0, 0, 0x78, 0x56, 0x34, 0x12, 0, 0, 0, 0, 0xff, 0xff, 0xff, 0xff]
    );
}

#[test]
fn pack_u32x4_reads_back() {
    let v = pack_u32x4(0xdead_beef, 7, 0x8000_0000, 42);
    assert_eq!(u32::from_le_bytes([v[0], v[1], v[2], v[3]]), 0xdead_beef);
    assert_eq!(u32::from_le_bytes([v[4], v[5], v[6], v[7]]), 7);
    assert_eq!(u32::from_le_bytes([v[8], v[9], v[10], v[11]]), 0x8000_0000);
    assert_eq!(u32::from_le_bytes([v[12], v[13], v[14], v[15]]), 42);
}

#[test]
fn push_le_appends() {
    let mut v = vec![9u8];
    push_u32_le(&mut v, 0x0102_0304);
    push_u16_le(&mut v, 0xabcd);
    assert_eq!(v, vec![9, 4, 3, 2, 1, 0xcd, 0xab]);
}

#[test]
fn checksum_whole_and_partial_words() {
    assert_eq!(amls_checksum(&[]), 0);
    assert_eq!(amls_checksum(&[1, 2, 3, 4]), 0x0403_0201);
    assert_eq!(amls_checksum(&[1, 2, 3, 4, 5, 6, 7]), 0x040a_0806);
    assert_eq!(amls_checksum(&[1, 2, 3, 4, 5, 6]), 0x0403_0201 + 0x0605);
    assert_eq!(amls_checksum(&[1, 2, 3, 4, 5]), 0x0403_0201 + 5);
    let data: Vec<u8> = (1..=20).collect();
    assert_eq!(amls_checksum(&data), 0x3c37_322d);
}

#[test]
fn checksum_wraps() {
    assert_eq!(amls_checksum(&[0xff, 0xff, 0xff, 0xff, 1, 0, 0, 0]), 0);
    assert_eq!(amls_checksum(&[0xff, 0xff, 0xff, 0xff, 2]), 1);
}

#[test]
fn checksum_of_concatenation_adds_up() {
    let a: Vec<u8> = (0..12).map(|i| (i * 37 + 5) as u8).collect();
    let b: Vec<u8> = (0..9).map(|i| (i * 91 + 200) as u8).collect();
    let mut ab = a.clone();
    ab.extend_from_slice(&b);
    assert_eq!(amls_checksum(&ab), amls_checksum(&a).wrapping_add(amls_checksum(&b)));
}

#[test]
fn checksum_ignores_zero_padding() {
    let a: Vec<u8> = vec![7, 8, 9, 10, 11, 12, 13];
    let mut padded = a.clone();
    padded.resize(40, 0);
    assert_eq!(amls_checksum(&padded), amls_checksum(&a));
}
