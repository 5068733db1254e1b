use object_mappings::wire::{get_length, get_u16, get_u64, put_length, put_u16, put_u64};
use object_mappings::DecodeError;
use parity_scale_codec::{Compact, Decode, Encode};

fn prefix(n: u32) -> Vec<u8> {
    let mut out = Vec::new();
    put_length(&mut out, n);
    out
}

#[test]
fn put_u16_appends_two_bytes() {
    let mut out = vec![9u8];
    put_u16(&mut out, 0x0102);
    assert_eq!(out, vec![9, 2, 1]);
    put_u16(&mut out, 100);
    assert_eq!(out, vec![9, 2, 1, 100, 0]);
    put_u16(&mut out, u16::MAX);
    assert_eq!(out, vec![9, 2, 1, 100, 0, 255, 255]);
}

#[test]
fn put_u64_appends_eight_bytes() {
    let mut out = vec![7u8];
    put_u64(&mut out, 5);
    assert_eq!(out, vec![7, 5, 0, 0, 0, 0, 0, 0, 0]);
    let mut out = Vec::new();
    put_u64(&mut out, 0x0102_0304_0506_0708);
    assert_eq!(out, vec![8, 7, 6, 5, 4, 3, 2, 1]);
    let mut out = Vec::new();
    put_u64(&mut out, u64::MAX);
    assert_eq!(out, vec![255; 8]);
}

#[test]
fn get_u16_reads_at_the_given_place() {
    let bytes = [9u8, 2, 1, 100, 0, 255, 255];
    assert_eq!(get_u16(&bytes, 1), 0x0102);
    assert_eq!(get_u16(&bytes, 3), 100);
    assert_eq!(get_u16(&bytes, 5), u16::MAX);
    assert_eq!(get_u16(&bytes, 0), 0x0209);
}

#[test]
fn get_u64_reads_at_the_given_place() {
    let bytes = [7u8, 8, 7, 6, 5, 4, 3, 2, 1, 0];
    assert_eq!(get_u64(&bytes, 1), 0x0102_0304_0506_0708);
    assert_eq!(get_u64(&bytes, 0), 0x0203_0405_0607_0807);
    assert_eq!(get_u64(&[255u8; 8], 0), u64::MAX);
    assert_eq!(get_u64(&[5u8, 0, 0, 0, 0, 0, 0, 0], 0), 5);
}

#[test]
fn integers_agree_with_the_codec() {
    for v in [0u16, 1, 255, 256, 0x1234, u16::MAX] {
        let mut out = Vec::new();
        put_u16(&mut out, v);
        assert_eq!(out, v.encode());
        assert_eq!(get_u16(&out, 0), v);
    }
    for v in [0u64, 1, 255, 256, 0x1234_5678_9abc_def0, u64::MAX, 1 << 63, (1 << 56) - 1] {
        let mut out = Vec::new();
        put_u64(&mut out, v);
        assert_eq!(out, v.encode());
        assert_eq!(get_u64(&out, 0), v);
    }
}

#[test]
fn length_prefix_has_the_documented_bytes() {
    assert_eq!(prefix(0), vec![0x00]);
    assert_eq!(prefix(1), vec![0x04]);
    assert_eq!(prefix(42), vec![0xa8]);
    assert_eq!(prefix(63), vec![0xfc]);
    assert_eq!(prefix(64), vec![0x01, 0x01]);
    assert_eq!(prefix(69), vec![0x15, 0x01]);
    assert_eq!(prefix(16_383), vec![0xfd, 0xff]);
    assert_eq!(prefix(16_384), vec![0x02, 0x00, 0x01, 0x00]);
    assert_eq!(prefix(65_535), vec![0xfe, 0xff, 0x03, 0x00]);
    assert_eq!(prefix((1 << 30) - 1), vec![0xfe, 0xff, 0xff, 0xff]);
    assert_eq!(prefix(1 << 30), vec![0x03, 0x00, 0x00, 0x00, 0x40]);
    assert_eq!(prefix(u32::MAX), vec![0x03, 0xff, 0xff, 0xff, 0xff]);
}

#[test]
fn length_prefix_is_appended() {
    let mut out = vec![1u8, 2, 3];
    put_length(&mut out, 64);
    assert_eq!(out, vec![1, 2, 3, 0x01, 0x01]);
}

#[test]
fn length_prefix_agrees_with_the_codec() {
    let mut n: u32 = 0;
    loop {
        assert_eq!(prefix(n), Compact(n).encode());
        if n > u32::MAX - 104_729 {
            break;
        }
        n = if n < 70_000 { n + 1 } else { n + 104_729 };
    }
}

#[test]
fn get_length_reads_every_form() {
    assert_eq!(get_length(&[0x00]), Ok((0, 1)));
    assert_eq!(get_length(&[0x04]), Ok((1, 1)));
    assert_eq!(get_length(&[0xfc]), Ok((63, 1)));
    assert_eq!(get_length(&[0x01, 0x01]), Ok((64, 2)));
    assert_eq!(get_length(&[0xfd, 0xff]), Ok((16_383, 2)));
    assert_eq!(get_length(&[0x02, 0x00, 0x01, 0x00]), Ok((16_384, 4)));
    assert_eq!(get_length(&[0xfe, 0xff, 0xff, 0xff]), Ok(((1 << 30) - 1, 4)));
    assert_eq!(get_length(&[0x03, 0x00, 0x00, 0x00, 0x40]), Ok((1 << 30, 5)));
    assert_eq!(get_length(&[0x03, 0xff, 0xff, 0xff, 0xff]), Ok((u32::MAX, 5)));
}

#[test]
fn get_length_leaves_what_follows() {
    assert_eq!(get_length(&[0x04, 9, 9, 9]), Ok((1, 1)));
    assert_eq!(get_length(&[0x01, 0x01, 0xff]), Ok((64, 2)));
    assert_eq!(get_length(&[0x02, 0x00, 0x01, 0x00, 0x00, 0x00]), Ok((16_384, 4)));
    assert_eq!(get_length(&[0x03, 0x00, 0x00, 0x00, 0x40, 0x01]), Ok((1 << 30, 5)));
}

#[test]
fn get_length_rejects_input_cut_short() {
    assert_eq!(get_length(&[]), Err(DecodeError::InvalidLength));
    assert_eq!(get_length(&[0x01]), Err(DecodeError::InvalidLength));
    assert_eq!(get_length(&[0x02, 0x00, 0x01]), Err(DecodeError::InvalidLength));
    assert_eq!(get_length(&[0x03, 0x00, 0x00, 0x00]), Err(DecodeError::InvalidLength));
}

#[test]
fn get_length_rejects_forms_that_are_not_the_shortest() {
    // 0 and 63 in two bytes, 64 and 16383 in four, 2^30 - 1 in five.
    assert_eq!(get_length(&[0x01, 0x00]), Err(DecodeError::InvalidLength));
    assert_eq!(get_length(&[0xfd, 0x00]), Err(DecodeError::InvalidLength));
    assert_eq!(get_length(&[0x02, 0x01, 0x00, 0x00]), Err(DecodeError::InvalidLength));
    assert_eq!(get_length(&[0xfe, 0xff, 0x00, 0x00]), Err(DecodeError::InvalidLength));
    assert_eq!(get_length(&[0x03, 0xff, 0xff, 0xff, 0x3f]), Err(DecodeError::InvalidLength));
    assert_eq!(get_length(&[0x03, 0x00, 0x00, 0x00, 0x00]), Err(DecodeError::InvalidLength));
}

#[test]
fn get_length_rejects_numbers_beyond_32_bits() {
    assert_eq!(get_length(&[0x07, 0, 0, 0, 0, 1]), Err(DecodeError::InvalidLength));
    assert_eq!(
        get_length(&[0x0b, 0xff, 0xff, 0xff, 0xff, 0xff, 0xff]),
        Err(DecodeError::InvalidLength)
    );
    assert_eq!(get_length(&[0xff; 70]), Err(DecodeError::InvalidLength));
}

#[test]
fn get_length_agrees_with_the_codec_on_two_byte_inputs() {
    for b0 in 0u16..=255 {
        for b1 in 0u16..=255 {
            let bytes = [b0 as u8, b1 as u8];
            let mut rest: &[u8] = &bytes;
            let theirs = Compact::<u32>::decode(&mut rest);
            match get_length(&bytes) {
                Ok((n, used)) => {
                    assert_eq!(theirs.map(|c| c.0), Ok(n));
                    assert_eq!(used, bytes.len() - rest.len());
                    assert_eq!(prefix(n), bytes[..used].to_vec());
                }
                Err(e) => {
                    assert_eq!(e, DecodeError::InvalidLength);
                    assert!(theirs.is_err());
                }
            }
        }
    }
}

#[test]
fn get_length_reads_back_what_put_length_wrote() {
    for n in [0u32, 1, 2, 63, 64, 65, 1000, 16_383, 16_384, 16_385, 1 << 20, (1 << 30) - 1,
        1 << 30, (1 << 30) + 1, u32::MAX - 1, u32::MAX]
    {
        let mut bytes = prefix(n);
        let used = bytes.len();
        assert_eq!(get_length(&bytes), Ok((n, used)));
        bytes.extend_from_slice(&[0xaa, 0xbb]);
        assert_eq!(get_length(&bytes), Ok((n, used)));
    }
}

fn expected_length(bytes: &[u8; 5]) -> Option<(u32, usize)> {
    let low = u16::from_le_bytes([bytes[0], bytes[1]]);
    let wide = u32::from_le_bytes([bytes[0], bytes[1], bytes[2], bytes[3]]);
    let own = u32::from_le_bytes([bytes[1], bytes[2], bytes[3], bytes[4]]);
    match bytes[0] & 3 {
        0 => Some(((bytes[0] >> 2) as u32, 1)),
        1 if low >> 2 >= 64 => Some(((low >> 2) as u32, 2)),
        2 if wide >> 2 >= 16_384 => Some((wide >> 2, 4)),
        3 if bytes[0] == 3 && own >= 1 << 30 => Some((own, 5)),
        _ => None,
    }
}

#[test]
fn get_length_follows_the_format_on_five_byte_inputs() {
    let tails: [[u8; 4]; 12] = [
        [0, 0, 0, 0],
        [1, 0, 0, 0],
        [0, 1, 0, 0],
        [0, 0, 1, 0],
        [0, 0, 0, 1],
        [0xff, 0, 0, 0],
        [0xff, 0xff, 0, 0],
        [0xff, 0xff, 0xff, 0],
        [0xff, 0xff, 0xff, 0x3f],
        [0, 0, 0, 0x40],
        [0x12, 0x34, 0x56, 0x78],
        [0xff, 0xff, 0xff, 0xff],
    ];
    for b0 in 0u16..=255 {
        for tail in tails {
            let bytes = [b0 as u8, tail[0], tail[1], tail[2], tail[3]];
            match expected_length(&bytes) {
                Some((n, used)) => {
                    assert_eq!(get_length(&bytes), Ok((n, used)));
                    assert_eq!(prefix(n), bytes[..used].to_vec());
                }
                None => assert_eq!(get_length(&bytes), Err(DecodeError::InvalidLength)),
            }
        }
    }
}
