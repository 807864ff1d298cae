use klickhouse::wire::{
    get_uint, put_bytes, put_uint, put_varint, put_zeros, twos_of, untwos_of, Reader,
};
use klickhouse::ErrorKind;

#[test]
fn little_endian_numbers() {
    let mut out = vec![0xEE];
    put_uint(&mut out, 0x0102_0304, 4);
    assert_eq!(out, vec![0xEE, 4, 3, 2, 1]);
    put_uint(&mut out, 0x0102_0304, 2);
    assert_eq!(out, vec![0xEE, 4, 3, 2, 1, 4, 3]);
    put_uint(&mut out, 5, 0);
    assert_eq!(out.len(), 7);
    let mut out = vec![];
    put_uint(&mut out, u128::MAX, 16);
    assert_eq!(out, vec![0xFF; 16]);
    let mut out = vec![];
    put_uint(&mut out, 0x1_0000_0000_0000_0001, 8);
    assert_eq!(out, vec![1, 0, 0, 0, 0, 0, 0, 0]);
    assert_eq!(get_uint(&[9, 4, 3, 2, 1, 9], 1, 4), 0x0102_0304);
    assert_eq!(get_uint(&[9, 4, 3], 1, 0), 0);
    assert_eq!(get_uint(&[0xFF; 16], 0, 16), u128::MAX);
}

#[test]
fn runs_of_bytes() {
    let mut out = vec![1];
    put_bytes(&mut out, &[2, 3]);
    put_bytes(&mut out, &[]);
    put_zeros(&mut out, 3);
    put_zeros(&mut out, 0);
    assert_eq!(out, vec![1, 2, 3, 0, 0, 0]);
}

#[test]
fn twos_complement() {
    assert_eq!(twos_of(-1, 1), 0xFF);
    assert_eq!(twos_of(-128, 1), 0x80);
    assert_eq!(twos_of(127, 1), 0x7F);
    assert_eq!(twos_of(-2, 2), 0xFFFE);
    assert_eq!(twos_of(i32::MIN as i128, 4), 0x8000_0000);
    assert_eq!(twos_of(-1, 8), u64::MAX as u128);
    assert_eq!(twos_of(-1, 16), u128::MAX);
    assert_eq!(twos_of(i128::MIN, 16), 1u128 << 127);
    assert_eq!(twos_of(i128::MAX, 16), (1u128 << 127) - 1);
    assert_eq!(untwos_of(0xFF, 1), -1);
    assert_eq!(untwos_of(0x80, 1), -128);
    assert_eq!(untwos_of(0x7F, 1), 127);
    assert_eq!(untwos_of(0xFFFE, 2), -2);
    assert_eq!(untwos_of(0x8000_0000, 4), i32::MIN as i128);
    assert_eq!(untwos_of(u64::MAX as u128, 8), -1);
    assert_eq!(untwos_of(u128::MAX, 16), -1);
    assert_eq!(untwos_of(1u128 << 127, 16), i128::MIN);
    assert_eq!(untwos_of((1u128 << 127) - 1, 16), i128::MAX);
}

fn varint(v: u64) -> Vec<u8> {
    let mut out = vec![];
    put_varint(&mut out, v);
    out
}

#[test]
fn variable_length_integers() {
    assert_eq!(varint(0), vec![0]);
    assert_eq!(varint(1), vec![1]);
    assert_eq!(varint(127), vec![0x7F]);
    assert_eq!(varint(128), vec![0x80, 0x01]);
    assert_eq!(varint(300), vec![0xAC, 0x02]);
    assert_eq!(varint(16384), vec![0x80, 0x80, 0x01]);
    assert_eq!(varint(u64::MAX), vec![0xFF, 0xFF, 0xFF, 0xFF, 0xFF, 0xFF, 0xFF, 0xFF, 0xFF, 0x01]);
    for v in [0u64, 1, 127, 128, 255, 300, 16383, 16384, 1 << 35, u64::MAX - 1, u64::MAX] {
        let mut bytes = varint(v);
        let len = bytes.len();
        bytes.push(0x99);
        let mut reader = Reader::new(&bytes);
        assert_eq!(reader.read_varint().unwrap(), v);
        assert_eq!(reader.position(), len);
    }
}

#[test]
fn bad_variable_length_integers() {
    let cases: Vec<Vec<u8>> = vec![
        vec![],
        vec![0x80],
        vec![0xFF, 0xFF],
        vec![0x80; 10],
        vec![0x80, 0x80, 0x80, 0x80, 0x80, 0x80, 0x80, 0x80, 0x80, 0x80, 0x00],
        vec![0xFF, 0xFF, 0xFF, 0xFF, 0xFF, 0xFF, 0xFF, 0xFF, 0xFF, 0x02],
        vec![0x80, 0x80, 0x80, 0x80, 0x80, 0x80, 0x80, 0x80, 0x80, 0x7F],
    ];
    for bytes in cases {
        let mut reader = Reader::new(&bytes);
        assert_eq!(reader.read_varint().unwrap_err().kind(), ErrorKind::ProtocolError, "{:?}", bytes);
    }
    let mut reader = Reader::new(&[0x80, 0x80, 0x80, 0x80, 0x80, 0x80, 0x80, 0x80, 0x80, 0x01]);
    assert_eq!(reader.read_varint().unwrap(), 1 << 63);
    let mut reader = Reader::new(&[0x81, 0x80, 0x00]);
    assert_eq!(reader.read_varint().unwrap(), 1);
}

#[test]
fn cursor() {
    let bytes = [1u8, 2, 3, 4, 5, 6, 7];
    let mut reader = Reader::new(&bytes);
    assert_eq!(reader.position(), 0);
    assert_eq!(reader.remaining(), 7);
    assert_eq!(reader.read_uint(2).unwrap(), 0x0201);
    assert_eq!(reader.position(), 2);
    assert_eq!(reader.read_bytes(3).unwrap(), vec![3, 4, 5]);
    assert_eq!(reader.remaining(), 2);
    assert_eq!(reader.read_uint(0).unwrap(), 0);
    assert_eq!(reader.read_bytes(0).unwrap(), Vec::<u8>::new());
    assert_eq!(reader.read_uint(4).unwrap_err().kind(), ErrorKind::ProtocolError);
    assert_eq!(reader.read_bytes(3).unwrap_err().kind(), ErrorKind::ProtocolError);
    assert_eq!(reader.read_bytes(usize::MAX).unwrap_err().kind(), ErrorKind::ProtocolError);
    assert_eq!(reader.position(), 5);
    assert_eq!(reader.read_uint(2).unwrap(), 0x0706);
    assert_eq!(reader.remaining(), 0);
    assert_eq!(reader.read_uint(1).unwrap_err().kind(), ErrorKind::ProtocolError);
}
