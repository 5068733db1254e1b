use object_mappings::packed::{pack, unpack, U24_MAX};

#[test]
fn pack_gives_little_endian_bytes() {
    assert_eq!(pack(0), [0, 0, 0]);
    assert_eq!(pack(1), [1, 0, 0]);
    assert_eq!(pack(10), [10, 0, 0]);
    assert_eq!(pack(255), [255, 0, 0]);
    assert_eq!(pack(256), [0, 1, 0]);
    assert_eq!(pack(65_535), [255, 255, 0]);
    assert_eq!(pack(65_536), [0, 0, 1]);
    assert_eq!(pack(0x01_02_03), [3, 2, 1]);
    assert_eq!(pack(16_777_215), [255, 255, 255]);
}

#[test]
fn unpack_reads_little_endian_bytes() {
    assert_eq!(unpack(&[0, 0, 0]), 0);
    assert_eq!(unpack(&[10, 0, 0]), 10);
    assert_eq!(unpack(&[0, 1, 0]), 256);
    assert_eq!(unpack(&[0, 0, 1]), 65_536);
    assert_eq!(unpack(&[3, 2, 1]), 0x01_02_03);
    assert_eq!(unpack(&[255, 255, 255]), 16_777_215);
}

#[test]
fn unpack_agrees_with_std() {
    for bytes in [[0u8, 0, 0], [1, 2, 3], [255, 0, 255], [9, 200, 77], [255, 255, 255]] {
        assert_eq!(unpack(&bytes), u32::from_le_bytes([bytes[0], bytes[1], bytes[2], 0]));
    }
}

#[test]
fn largest_value_is_24_bits() {
    assert_eq!(U24_MAX, 0xFF_FFFF);
    assert_eq!(U24_MAX, 16_777_215);
}

#[test]
fn unpack_of_pack_is_identity_for_every_value() {
    let mut v: u32 = 0;
    while v <= U24_MAX {
        assert_eq!(unpack(&pack(v)), v);
        v += 1;
    }
}

#[test]
fn pack_of_unpack_is_identity_for_bytes() {
    for b0 in (0u16..=255).step_by(5) {
        for b1 in (0u16..=255).step_by(3) {
            for b2 in (0u16..=255).step_by(7) {
                let bytes = [b0 as u8, b1 as u8, b2 as u8];
                assert_eq!(pack(unpack(&bytes)), bytes);
            }
        }
    }
    for bytes in [[255u8, 255, 255], [0, 0, 255], [255, 0, 0], [0, 255, 0]] {
        assert_eq!(pack(unpack(&bytes)), bytes);
    }
}
