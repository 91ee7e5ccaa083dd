use lkjmcrs::codec::{
    read_bool, read_bytes, read_i32, read_i64, read_position, read_string, read_u16, read_u64,
    read_u8, read_uuid, read_var_i32, skip, write_position, write_var_i32, CodecError,
};

fn varint(value: i32) -> Vec<u8> {
    let mut out = Vec::new();
    write_var_i32(&mut out, value);
    out
}

fn packed_position(x: i64, y: i64, z: i64) -> Vec<u8> {
    let packed: u64 =
        (((x as u64) & 0x3FF_FFFF) << 38) | (((z as u64) & 0x3FF_FFFF) << 12) | ((y as u64) & 0xFFF);
    packed.to_be_bytes().to_vec()
}

#[test]
fn var_ints_have_their_documented_bytes() {
    assert_eq!(varint(0), vec![0x00]);
    assert_eq!(varint(1), vec![0x01]);
    assert_eq!(varint(127), vec![0x7f]);
    assert_eq!(varint(128), vec![0x80, 0x01]);
    assert_eq!(varint(255), vec![0xff, 0x01]);
    assert_eq!(varint(25565), vec![0xdd, 0xc7, 0x01]);
    assert_eq!(varint(2097151), vec![0xff, 0xff, 0x7f]);
    assert_eq!(varint(i32::MAX), vec![0xff, 0xff, 0xff, 0xff, 0x07]);
    assert_eq!(varint(-1), vec![0xff, 0xff, 0xff, 0xff, 0x0f]);
    assert_eq!(varint(i32::MIN), vec![0x80, 0x80, 0x80, 0x80, 0x08]);
}

#[test]
fn var_ints_read_back_what_was_written() {
    for value in [0, 1, 2, 127, 128, 300, 25565, 2097151, i32::MAX, -1, -300, i32::MIN] {
        let mut bytes = varint(value);
        let written = bytes.len();
        bytes.push(0xAB);
        assert_eq!(read_var_i32(&bytes, 0).unwrap(), (value, written));
    }
}

#[test]
fn var_int_errors() {
    assert_eq!(read_var_i32(&[], 0), Err(CodecError::Eof));
    assert_eq!(read_var_i32(&[0x80, 0x80], 0), Err(CodecError::Eof));
    assert_eq!(read_var_i32(&[0x80, 0x80, 0x80, 0x80, 0x80, 0x01], 0), Err(CodecError::VarIntTooLong));
    assert_eq!(read_var_i32(&[0x05, 0x06], 1).unwrap(), (6, 2));
}

#[test]
fn fixed_width_numbers_are_big_endian() {
    let data = [0x12, 0x34, 0x56, 0x78, 0x9a, 0xbc, 0xde, 0xf0];
    assert_eq!(read_u8(&data, 1).unwrap(), (0x34, 2));
    assert_eq!(read_u16(&data, 0).unwrap(), (0x1234, 2));
    assert_eq!(read_i32(&data, 0).unwrap(), (0x12345678, 4));
    assert_eq!(read_i32(&data, 4).unwrap(), (0x9abcdef0_u32 as i32, 8));
    assert_eq!(read_u64(&data, 0).unwrap(), (0x123456789abcdef0, 8));
    assert_eq!(read_i64(&[0xff; 8], 0).unwrap(), (-1, 8));
    assert_eq!(read_i32(&data, 5), Err(CodecError::Eof));
    assert_eq!(read_u8(&data, 8), Err(CodecError::Eof));
    assert_eq!(read_u64(&data, 1), Err(CodecError::Eof));
}

#[test]
fn booleans_are_any_non_zero_byte() {
    assert_eq!(read_bool(&[0], 0).unwrap(), (false, 1));
    assert_eq!(read_bool(&[1], 0).unwrap(), (true, 1));
    assert_eq!(read_bool(&[2], 0).unwrap(), (true, 1));
    assert_eq!(read_bool(&[], 0), Err(CodecError::Eof));
}

#[test]
fn uuids_are_sixteen_big_endian_bytes() {
    let mut data = vec![0u8; 15];
    data.push(7);
    assert_eq!(read_uuid(&data, 0).unwrap(), (7, 16));
    let bytes: Vec<u8> = (1..=16).collect();
    assert_eq!(read_uuid(&bytes, 0).unwrap(), (0x0102030405060708090a0b0c0d0e0f10, 16));
    assert_eq!(read_uuid(&bytes, 1), Err(CodecError::Eof));
}

#[test]
fn positions_unpack_to_x_y_z() {
    assert_eq!(read_position(&packed_position(2, 79, 0), 0).unwrap(), ((2, 79, 0), 8));
    assert_eq!(read_position(&packed_position(-5, 70, 300), 0).unwrap(), ((-5, 70, 300), 8));
    assert_eq!(read_position(&packed_position(48, -64, -17), 0).unwrap(), ((48, -64, -17), 8));
    assert_eq!(
        read_position(&packed_position(-33554432, 2047, 33554431), 0).unwrap(),
        ((-33554432, 2047, 33554431), 8)
    );
    assert_eq!(read_position(&[0; 7], 0), Err(CodecError::Eof));
}

#[test]
fn strings_are_length_prefixed_utf8() {
    let mut data = varint(5);
    data.extend_from_slice(b"hello");
    assert_eq!(read_string(&data, 0).unwrap(), ("hello".to_string(), 6));
    assert_eq!(read_string(&[5, b'a', b'b'], 0), Err(CodecError::Eof));
    let mut data = varint(5);
    data.extend_from_slice("stäb".as_bytes());
    assert_eq!(read_string(&data, 0).unwrap(), ("stäb".to_string(), 6));
    assert_eq!(read_string(&[2, 0xff, 0xfe], 0), Err(CodecError::InvalidUtf8));
    assert_eq!(read_string(&varint(-1), 0), Err(CodecError::NegativeLength));
    assert_eq!(read_string(&[0], 0).unwrap(), (String::new(), 1));
}

#[test]
fn byte_strings_are_length_prefixed() {
    assert_eq!(read_bytes(&[3, 9, 8, 7, 6], 0).unwrap(), (vec![9, 8, 7], 4));
    assert_eq!(read_bytes(&[4, 9, 8, 7], 0), Err(CodecError::Eof));
    assert_eq!(read_bytes(&varint(-2), 0), Err(CodecError::NegativeLength));
}

#[test]
fn skipping_stays_inside_the_data() {
    assert_eq!(skip(&[0; 10], 2, 8), Some(10));
    assert_eq!(skip(&[0; 10], 2, 9), None);
    assert_eq!(skip(&[0; 10], 11, 0), None);
}

#[test]
fn positions_are_packed_and_read_back() {
    for (x, y, z) in [(0, 0, 0), (2, 79, 0), (-5, 70, 300), (48, -64, -17), (-33554432, 2047, 33554431), (33554431, -2048, -33554432)] {
        let mut out = vec![9u8];
        write_position(&mut out, x, y, z);
        assert_eq!(out.len(), 9);
        assert_eq!(&out[1..], &packed_position(x as i64, y as i64, z as i64)[..]);
        out.push(1);
        assert_eq!(read_position(&out, 1).unwrap(), ((x, y, z), 9));
    }
}
