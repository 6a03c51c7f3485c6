use xs::encoding::{as_base64, fits_base64};

#[test]
fn as_base64_encodes_what_is_there() {
    assert_eq!(as_base64(&None), None);
    assert_eq!(as_base64(&Some(Vec::new())), Some(String::new()));
    assert_eq!(as_base64(&Some(b"hello".to_vec())), Some("aGVsbG8=".to_string()));
    assert_eq!(as_base64(&Some(b"hello world".to_vec())), Some("aGVsbG8gd29ybGQ=".to_string()));
    assert_eq!(as_base64(&Some(vec![0xfb, 0xff, 0xfe])), Some("+//+".to_string()));
    assert_eq!(as_base64(&Some(vec![0])), Some("AA==".to_string()));
}

#[test]
fn fits_base64_knows_the_longest_input() {
    assert!(fits_base64(0));
    assert!(fits_base64(1 << 20));
    let longest = usize::MAX / 4 * 3;
    assert!(fits_base64(longest));
    assert!(!fits_base64(longest + 1));
    assert!(!fits_base64(usize::MAX));
}
