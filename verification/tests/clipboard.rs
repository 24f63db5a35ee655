use skills::clipboard::{base64_encode, clipboard_sequence};

#[test]
fn base64_known_values() {
    assert_eq!(base64_encode(b""), "");
    assert_eq!(base64_encode(b"f"), "Zg==");
    assert_eq!(base64_encode(b"fo"), "Zm8=");
    assert_eq!(base64_encode(b"foo"), "Zm9v");
    assert_eq!(base64_encode(b"foob"), "Zm9vYg==");
    assert_eq!(base64_encode(b"fooba"), "Zm9vYmE=");
    assert_eq!(base64_encode(b"foobar"), "Zm9vYmFy");
    assert_eq!(base64_encode(&[0xfb, 0xff, 0xbf]), "+/+/");
}

#[test]
fn clipboard_sequence_wraps_utf8_in_osc52() {
    assert_eq!(clipboard_sequence("hi"), "\u{1b}]52;c;aGk=\u{7}");
    assert_eq!(clipboard_sequence("é"), "\u{1b}]52;c;w6k=\u{7}");
}
