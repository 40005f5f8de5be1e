use micropb_gen::text::split_dots;
use micropb_gen::wire::{
    read_fixed64, read_len, read_packed_i32, read_string, read_tag, read_varint, skip_value, to_i32, to_i64,
    DecodeError,
};

#[test]
fn varints() {
    assert_eq!(read_varint(&[0x01], 0, 1), Ok((1, 1)));
    assert_eq!(read_varint(&[0xac, 0x02], 0, 2), Ok((300, 2)));
    assert_eq!(read_varint(&[0xff, 0x01], 0, 1), Err(DecodeError::UnexpectedEof));
    let max = [0xff, 0xff, 0xff, 0xff, 0xff, 0xff, 0xff, 0xff, 0xff, 0x01];
    assert_eq!(read_varint(&max, 0, 10), Ok((u64::MAX, 10)));
    let too_long = [0x80u8; 11];
    assert_eq!(read_varint(&too_long, 0, 11), Err(DecodeError::VarIntLimit));
    assert_eq!(read_varint(&[9, 0x05], 1, 2), Ok((5, 2)));
}

#[test]
fn integer_conversions() {
    assert_eq!(to_i32(0xffff_ffff_ffff_fffe), -2);
    assert_eq!(to_i32(0x1_0000_0005), 5);
    assert_eq!(to_i32(0x8000_0000), i32::MIN);
    assert_eq!(to_i64(u64::MAX), -1);
    assert_eq!(to_i64(7), 7);
}

#[test]
fn fields() {
    let buf = [0x08, 0x96, 0x01, 0x12, 0x02, b'h', b'i', 0x19, 1, 0, 0, 0, 0, 0, 0, 0, 0x25, 2, 0, 0, 1];
    assert_eq!(read_tag(&buf, 0, buf.len()), Ok((1, 0, 1)));
    assert_eq!(read_varint(&buf, 1, buf.len()), Ok((150, 3)));
    assert_eq!(read_tag(&buf, 3, buf.len()), Ok((2, 2, 4)));
    assert_eq!(read_len(&buf, 4, buf.len()), Ok((5, 7)));
    assert_eq!(read_string(&buf, 5, 7), Ok("hi".to_owned()));
    assert_eq!(read_tag(&buf, 7, buf.len()), Ok((3, 1, 8)));
    assert_eq!(read_fixed64(&buf, 8, buf.len()), Ok((1, 16)));
    assert_eq!(read_tag(&buf, 16, buf.len()), Ok((4, 5, 17)));
    assert_eq!(skip_value(&buf, 17, buf.len(), 5), Ok(buf.len()));
    assert_eq!(skip_value(&buf, 1, buf.len(), 0), Ok(3));
    assert_eq!(skip_value(&buf, 4, buf.len(), 2), Ok(7));
    assert_eq!(skip_value(&buf, 8, buf.len(), 1), Ok(16));
    assert_eq!(skip_value(&buf, 8, 12, 1), Err(DecodeError::UnexpectedEof));
    assert_eq!(skip_value(&buf, 0, buf.len(), 3), Err(DecodeError::Deprecation));
    assert_eq!(skip_value(&buf, 0, buf.len(), 4), Err(DecodeError::Deprecation));
    assert_eq!(skip_value(&buf, 0, buf.len(), 7), Err(DecodeError::UnknownWireType));
    assert_eq!(read_len(&[0x05, b'a'], 0, 2), Err(DecodeError::UnexpectedEof));
    assert_eq!(read_fixed64(&[1, 2, 3], 0, 3), Err(DecodeError::UnexpectedEof));
}

#[test]
fn packed_values() {
    assert_eq!(read_packed_i32(&[0x01, 0xac, 0x02, 0x03], 0, 4), Ok(vec![1, 300, 3]));
    assert_eq!(read_packed_i32(&[0x01, 0xac], 0, 2), Err(DecodeError::UnexpectedEof));
    assert_eq!(read_packed_i32(&[], 0, 0), Ok(vec![]));
}

#[test]
fn splitting_names() {
    assert_eq!(split_dots("a.b.c"), vec!["a", "b", "c"]);
    assert_eq!(split_dots(""), vec![""]);
    assert_eq!(split_dots(".a"), vec!["", "a"]);
    assert_eq!(split_dots("a..b"), vec!["a", "", "b"]);
}
