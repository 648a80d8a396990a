use adb_pairing_auth::protocol_io::{
    read_exactly, read_protocol_string, send_fail, send_okay, send_protocol_string, write_exactly,
    ProtocolError,
};
use adb_pairing_auth::types::Block;

#[test]
fn test_send_protocol_string() {
    let mut writer = Vec::new();
    send_protocol_string(&mut writer, "hello").unwrap();
    assert_eq!(writer, b"0005hello");
}

#[test]
fn test_send_protocol_string_too_long() {
    let mut writer = Vec::new();
    let s = "a".repeat(0x10000);
    let result = send_protocol_string(&mut writer, &s);
    assert!(result.is_err());
    assert_eq!(result.unwrap_err(), ProtocolError::InvalidInput);
}

#[test]
fn test_read_protocol_string() {
    let mut reader = Block::from_slice(b"0005hello");
    let s = read_protocol_string(&mut reader).unwrap();
    assert_eq!(s, "hello");
}

#[test]
fn test_read_protocol_string_invalid_len() {
    let mut reader = Block::from_slice(b"xxxxhello");
    assert!(read_protocol_string(&mut reader).is_err());
}

#[test]
fn test_read_protocol_string_short_read() {
    let mut reader = Block::from_slice(b"0005he");
    assert!(read_protocol_string(&mut reader).is_err());
}

#[test]
fn test_send_okay() {
    let mut writer = Vec::new();
    send_okay(&mut writer).unwrap();
    assert_eq!(writer, b"OKAY");
}

#[test]
fn test_send_fail() {
    let mut writer = Vec::new();
    send_fail(&mut writer, "error").unwrap();
    assert_eq!(writer, b"FAIL0005error");
}

#[test]
fn test_read_exactly_stdlib_whole() {
    let mut reader = Block::from_slice(b"Foobar");
    let buf = read_exactly(&mut reader, 6).unwrap();
    assert_eq!(&buf, b"Foobar");
}

#[test]
fn test_read_exactly_stdlib_eof() {
    let mut reader = Block::from_slice(b"Foobar");
    assert!(read_exactly(&mut reader, 7).is_err());
}

#[test]
fn test_read_exactly_stdlib_partial() {
    let mut reader = Block::from_slice(b"Foobar");
    let buf = read_exactly(&mut reader, 5).unwrap();
    assert_eq!(&buf, b"Fooba");
}

#[test]
fn test_write_all_stdlib_whole() {
    let mut writer = Vec::new();
    write_exactly(&mut writer, b"Foobar").unwrap();
    assert_eq!(&writer, b"Foobar");
}

#[test]
fn test_write_all_stdlib_partial() {
    let mut writer = Vec::new();
    write_exactly(&mut writer, &b"Foobar"[..5]).unwrap();
    assert_eq!(&writer, b"Fooba");
}

#[test]
fn test_send_protocol_string_long_length_prefix() {
    let mut writer = Vec::new();
    let s = "a".repeat(255);
    send_protocol_string(&mut writer, &s).unwrap();
    assert_eq!(&writer[..4], b"00ff");
    assert_eq!(writer.len(), 4 + 255);
}

#[test]
fn test_read_protocol_string_uppercase_hex() {
    let mut reader = Block::from_slice(b"000Aabcdefghij");
    let s = read_protocol_string(&mut reader).unwrap();
    assert_eq!(s, "abcdefghij");
}

#[test]
fn test_read_protocol_string_plus_prefix() {
    let mut reader = Block::from_slice(b"+005hello");
    let s = read_protocol_string(&mut reader).unwrap();
    assert_eq!(s, "hello");
}

#[test]
fn test_read_protocol_string_eof_before_prefix() {
    let mut reader = Block::from_slice(b"00");
    assert_eq!(
        read_protocol_string(&mut reader).unwrap_err(),
        ProtocolError::UnexpectedEof
    );
}

#[test]
fn test_read_protocol_string_invalid_utf8_body() {
    let mut reader = Block::from_slice(&[0x30, 0x30, 0x30, 0x32, 0xff, 0xfe]);
    assert_eq!(
        read_protocol_string(&mut reader).unwrap_err(),
        ProtocolError::InvalidData
    );
}

#[test]
fn test_round_trip_protocol_string() {
    let mut writer = Vec::new();
    send_protocol_string(&mut writer, "ping pong").unwrap();
    let mut reader = Block::from_slice(&writer);
    assert_eq!(read_protocol_string(&mut reader).unwrap(), "ping pong");
}
