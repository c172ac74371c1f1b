use hypest::hex::{bytes_to_hex, hex_to_bytes};

#[test]
fn encodes_known_bytes() {
    assert_eq!(bytes_to_hex(&vec![0xde, 0xad, 0xbe, 0xef]), "deadbeef");
    assert_eq!(bytes_to_hex(&vec![0x00, 0x0f]), "000f");
    assert_eq!(bytes_to_hex(&vec![]), "");
}

#[test]
fn decodes_what_it_encodes() {
    let bytes: Vec<u8> = vec![0, 1, 15, 16, 127, 128, 255];
    let hexed = bytes_to_hex(&bytes);
    assert_eq!(hex_to_bytes(&hexed), Some(bytes));
}

#[test]
fn decodes_both_cases() {
    assert_eq!(hex_to_bytes("DEADBEEF"), Some(vec![0xde, 0xad, 0xbe, 0xef]));
    assert_eq!(hex_to_bytes("DeAdBeEf"), Some(vec![0xde, 0xad, 0xbe, 0xef]));
}

#[test]
fn rejects_bad_input() {
    assert_eq!(hex_to_bytes("abc"), None);
    assert_eq!(hex_to_bytes("zz"), None);
    assert_eq!(hex_to_bytes("0g"), None);
    assert_eq!(hex_to_bytes("deadbee"), None);
    assert_eq!(hex_to_bytes(""), Some(vec![]));
}
