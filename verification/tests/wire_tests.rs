use minidocker::wire::{add_field, append_bytes, bytes_equal, simplify, starts_with_field, u64_from_be_bytes, u64_to_be_bytes};

fn field_of(data: &[u8]) -> Vec<u8> {
    let mut v = (data.len() as u64).to_be_bytes().to_vec();
    v.extend_from_slice(data);
    v
}

#[test]
fn be_bytes_match_std() {
    for v in [0u64, 1, 255, 256, 0x0102_0304_0506_0708, u64::MAX] {
        assert_eq!(u64_to_be_bytes(v), v.to_be_bytes());
        assert_eq!(u64_from_be_bytes(&v.to_be_bytes()), v);
    }
}

#[test]
fn add_field_prefixes_length() {
    let mut buf = vec![9u8];
    add_field(&mut buf, b"abc");
    assert_eq!(buf, vec![9, 0, 0, 0, 0, 0, 0, 0, 3, b'a', b'b', b'c']);
}

#[test]
fn add_field_of_empty_data() {
    let mut buf = Vec::new();
    add_field(&mut buf, b"");
    assert_eq!(buf, vec![0u8; 8]);
}

#[test]
fn simplify_reads_first_field() {
    let mut buf = field_of(b"hello");
    buf.extend_from_slice(b"rest");
    let (body, rest) = simplify(buf);
    assert_eq!(body, b"hello".to_vec());
    assert_eq!(rest, b"rest".to_vec());
}

#[test]
fn field_roundtrip_concrete() {
    let mut buf = Vec::new();
    add_field(&mut buf, b"create_bridge");
    add_field(&mut buf, b"dc-br0");
    let (a, rest) = simplify(buf);
    let (b, rest) = simplify(rest);
    assert_eq!(a, b"create_bridge".to_vec());
    assert_eq!(b, b"dc-br0".to_vec());
    assert!(rest.is_empty());
}

#[test]
fn starts_with_field_checks_length() {
    assert!(!starts_with_field(&[0, 0, 0]));
    assert!(starts_with_field(&[0u8; 8]));
    let mut short = field_of(b"abcd");
    short.pop();
    assert!(!starts_with_field(&short));
    assert!(starts_with_field(&field_of(b"abcd")));
}

#[test]
fn append_and_compare_bytes() {
    let mut v = b"ab".to_vec();
    append_bytes(&mut v, b"cd");
    assert_eq!(v, b"abcd".to_vec());
    assert!(bytes_equal(b"abc", b"abc"));
    assert!(!bytes_equal(b"abc", b"abd"));
    assert!(!bytes_equal(b"abc", b"ab"));
}

#[test]
fn reading_a_field_loses_nothing() {
    let mut buf = field_of(b"name");
    buf.extend_from_slice(&[1, 2, 3]);
    let sent = buf.clone();
    let (body, rest) = simplify(buf);
    let mut rebuilt = Vec::new();
    add_field(&mut rebuilt, &body);
    rebuilt.extend_from_slice(&rest);
    assert_eq!(rebuilt, sent);
}
