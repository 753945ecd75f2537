use hardbore::uri::{encode_file_uri, percent_decode};

#[test]
fn encodes_space_and_non_ascii() {
    let uri = encode_file_uri("/tmp/a b/\u{fc}nicode.txt");
    assert_eq!(uri, "file:///tmp/a%20b/%C3%BCnicode.txt");
}

#[test]
fn unreserved_bytes_pass_through() {
    assert_eq!(encode_file_uri("/Az09-_.~/x"), "file:///Az09-_.~/x");
}

#[test]
fn percent_sign_is_itself_encoded() {
    assert_eq!(encode_file_uri("/a%b"), "file:///a%25b");
}

#[test]
fn decode_undoes_encode() {
    let path = "/tmp/a b/\u{fc}nicode%+?.txt";
    let uri = encode_file_uri(path);
    let tail = uri.strip_prefix("file://").unwrap();
    let decoded = percent_decode(&tail.bytes().collect()).unwrap();
    assert_eq!(decoded, path.bytes().collect::<Vec<u8>>());
}

#[test]
fn decode_rejects_malformed_escapes() {
    assert_eq!(percent_decode(&b"%GZ".to_vec()), None);
    assert_eq!(percent_decode(&b"abc%2".to_vec()), None);
    assert_eq!(percent_decode(&b"%".to_vec()), None);
}

#[test]
fn decode_accepts_lowercase_digits() {
    assert_eq!(percent_decode(&b"%c3%bc".to_vec()), Some(vec![0xc3, 0xbc]));
}
