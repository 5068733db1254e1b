use object_mappings::record::{decode_record, encode_record, Record};
use object_mappings::{BlockObject, DecodeError, GlobalObject, PieceObject};

#[test]
fn encoded_size_is_the_length_of_every_encoding() {
    assert_eq!(<BlockObject as Record>::encoded_size(), 7);
    assert_eq!(<PieceObject as Record>::encoded_size(), 6);
    assert_eq!(<GlobalObject as Record>::encoded_size(), 14);
}

#[test]
fn encode_to_appends_and_keeps_what_was_there() {
    let mut out = vec![0xaa, 0xbb];
    BlockObject::V0 { offset: [1, 2, 3], size: [4, 5, 6] }.encode_to(&mut out);
    assert_eq!(out, vec![0xaa, 0xbb, 0, 1, 2, 3, 4, 5, 6]);
    PieceObject::V0 { offset: 0x0807, size: [9, 10, 11] }.encode_to(&mut out);
    assert_eq!(out, vec![0xaa, 0xbb, 0, 1, 2, 3, 4, 5, 6, 0, 7, 8, 9, 10, 11]);
    let mut out = vec![0xcc];
    GlobalObject::V0 { piece_index: 1, offset: 2, size: [3, 4, 5] }.encode_to(&mut out);
    assert_eq!(out, vec![0xcc, 0, 1, 0, 0, 0, 0, 0, 0, 0, 2, 0, 3, 4, 5]);
}

#[test]
fn decode_at_reads_from_the_given_place_and_ignores_what_follows() {
    let bytes = [0xaa, 0xbb, 0, 1, 2, 3, 4, 5, 6, 0, 7, 8, 9, 10, 11, 0xff];
    assert_eq!(
        BlockObject::decode_at(&bytes, 2),
        Ok(BlockObject::V0 { offset: [1, 2, 3], size: [4, 5, 6] })
    );
    assert_eq!(
        PieceObject::decode_at(&bytes, 9),
        Ok(PieceObject::V0 { offset: 0x0807, size: [9, 10, 11] })
    );
    assert_eq!(
        GlobalObject::decode_at(&bytes, 2),
        Ok(GlobalObject::V0 {
            piece_index: 0x0700_0605_0403_0201,
            offset: 0x0908,
            size: [10, 11, 0xff]
        })
    );
}

#[test]
fn decode_at_reports_what_is_wrong_at_that_place() {
    let bytes = [0xaa, 0xbb, 0, 1, 2, 3, 4, 5, 6];
    assert_eq!(BlockObject::decode_at(&bytes, 0), Err(DecodeError::UnknownVariant));
    assert_eq!(BlockObject::decode_at(&bytes, 3), Err(DecodeError::UnknownVariant));
    assert_eq!(BlockObject::decode_at(&bytes, 9), Err(DecodeError::UnexpectedEnd));
    assert_eq!(GlobalObject::decode_at(&bytes, 2), Err(DecodeError::UnexpectedEnd));
    assert_eq!(PieceObject::decode_at(&bytes, 2), Ok(PieceObject::V0 { offset: 0x0201, size: [3, 4, 5] }));
    let short = [0u8, 1, 2];
    assert_eq!(PieceObject::decode_at(&short, 0), Err(DecodeError::UnexpectedEnd));
    assert_eq!(PieceObject::decode_at(&short, 3), Err(DecodeError::UnexpectedEnd));
}

#[test]
fn generic_codec_agrees_with_the_methods() {
    let block = BlockObject::V0 { offset: [1, 2, 3], size: [4, 5, 6] };
    assert_eq!(encode_record(&block), block.encode());
    assert_eq!(decode_record::<BlockObject>(&block.encode()), Ok(block));
    let piece = PieceObject::V0 { offset: 77, size: [4, 5, 6] };
    assert_eq!(encode_record(&piece), piece.encode());
    assert_eq!(decode_record::<PieceObject>(&piece.encode()), Ok(piece));
    let global = GlobalObject::V0 { piece_index: 99, offset: 77, size: [4, 5, 6] };
    assert_eq!(encode_record(&global), global.encode());
    assert_eq!(decode_record::<GlobalObject>(&global.encode()), Ok(global));
    assert_eq!(decode_record::<GlobalObject>(&block.encode()), Err(DecodeError::UnexpectedEnd));
    assert_eq!(decode_record::<PieceObject>(&block.encode()), Err(DecodeError::TrailingBytes));
}

#[test]
fn errors_are_plain_values() {
    let e = DecodeError::TrailingBytes;
    let copy = e;
    assert_eq!(e, copy);
    assert_ne!(DecodeError::UnexpectedEnd, DecodeError::UnknownVariant);
    assert_ne!(DecodeError::TrailingBytes, DecodeError::InvalidLength);
    assert_eq!(format!("{:?}", DecodeError::UnknownVariant), "UnknownVariant");
}
