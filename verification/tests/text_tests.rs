use catgirl_parser::bytes::{bytes_le_exec, concat_bytes, sort_byte_strings};
use catgirl_parser::text::{hex_string, join_strings, push_decimal};

fn decimal_string(n: u64) -> String {
    let mut s = String::new();
    push_decimal(&mut s, n);
    s
}

#[test]
fn decimals() {
    assert_eq!(decimal_string(0), "0");
    assert_eq!(decimal_string(7), "7");
    assert_eq!(decimal_string(10), "10");
    assert_eq!(decimal_string(65535), "65535");
    assert_eq!(decimal_string(u64::MAX), "18446744073709551615");
    let mut s = "page=".to_string();
    push_decimal(&mut s, 42);
    assert_eq!(s, "page=42");
}

#[test]
fn hexes() {
    assert_eq!(hex_string(&[]), "");
    assert_eq!(hex_string(&[0x00, 0x0f, 0xa5, 0xff]), "000fa5ff");
}

#[test]
fn joins() {
    let v: Vec<String> = vec![];
    assert_eq!(join_strings(&v, "+"), "");
    assert_eq!(join_strings(&vec!["a".to_string()], "+"), "a");
    assert_eq!(join_strings(&vec!["a".to_string(), "".to_string(), "c".to_string()], "&"), "a&&c");
}

#[test]
fn byte_order_and_sort() {
    assert!(bytes_le_exec(b"", b"a"));
    assert!(bytes_le_exec(b"ab", b"ab"));
    assert!(bytes_le_exec(b"ab", b"b"));
    assert!(!bytes_le_exec(b"b", b"ab"));
    assert!(!bytes_le_exec(b"abc", b"ab"));
    let sorted = sort_byte_strings(vec![b"b".to_vec(), b"ab".to_vec(), b"".to_vec(), b"b".to_vec()]);
    assert_eq!(sorted, vec![b"".to_vec(), b"ab".to_vec(), b"b".to_vec(), b"b".to_vec()]);
    assert_eq!(concat_bytes(&sorted), b"abbb".to_vec());
}
