use hypest::crypto::to_base64;
use hypest::queries::order_by_allowed;

#[test]
fn base64_is_standard_and_unpadded() {
    assert_eq!(to_base64(b"hello"), "aGVsbG8");
    assert_eq!(to_base64(b""), "");
    assert_eq!(to_base64(&[0u8; 24]), "AAAAAAAAAAAAAAAAAAAAAAAAAAAAAAAA");
    assert_eq!(to_base64(&[0xfb, 0xff, 0xbf]), "+/+/");
}

#[test]
fn order_by_is_an_allow_list() {
    assert!(order_by_allowed("likes"));
    assert!(order_by_allowed("rating"));
    assert!(order_by_allowed("date_taken"));
    assert!(!order_by_allowed("likes; DROP TABLE pictures"));
    assert!(!order_by_allowed("id"));
    assert!(!order_by_allowed(""));
}
