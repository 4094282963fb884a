//! The marker scan of the two byte sources: everything up to and
//! including the two-byte end marker comes back.

use tagwire::read::{BuffReader, Read, VecReader};

#[test]
fn test_read_until_io_read() {
    const STRING: &[u8] = b"test_string";
    let mut bytes = STRING.to_vec();
    bytes.extend_from_slice(&[0xD8, 0x00]);
    let mut reader = VecReader::new(bytes.clone());
    let v = reader.read_until_marker().unwrap();
    assert_eq!(v, bytes);
}

#[test]
fn test_read_until_buff_reader() {
    const STRING: &[u8] = b"test_string";
    let mut bytes = STRING.to_vec();
    bytes.extend_from_slice(&[0xD8, 0x00]);
    let mut buff_reader = BuffReader::new(&bytes);
    let v = buff_reader.read_until().unwrap();
    assert_eq!(v, bytes);
}

#[test]
fn read_until_without_marker_fails() {
    const STRING: &[u8] = b"test_string";
    let mut buff_reader = BuffReader::new(STRING);
    assert!(buff_reader.read_until().is_err());
    let mut reader = VecReader::new(STRING.to_vec());
    assert!(reader.read_until_marker().is_err());
}

#[test]
fn read_exact_and_byte() {
    let bytes = [1u8, 2, 3, 4];
    let mut reader = BuffReader::new(&bytes);
    assert_eq!(reader.read_byte().unwrap(), 1);
    assert_eq!(reader.read_exact(2).unwrap(), vec![2, 3]);
    let slice = reader.pop_slice(1).unwrap();
    assert_eq!(slice, &[4]);
    assert!(reader.read_byte().is_err());
}
