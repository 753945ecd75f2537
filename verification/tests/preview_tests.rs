use hardbore::preview::{build_preview, bytes_to_hex, PreviewType};

#[test]
fn hex_dump_renders_a_short_chunk() {
    let dump = bytes_to_hex(&b"ABC".to_vec());
    let expected = format!("00000000  41 42 43 {}|ABC|\n", " ".repeat(41));
    assert_eq!(dump, expected);
}

#[test]
fn hex_dump_splits_lines_at_sixteen_bytes() {
    let bytes: Vec<u8> = (0u8..17u8).collect();
    let dump = bytes_to_hex(&bytes);
    let lines: Vec<&str> = dump.lines().collect();
    assert_eq!(lines.len(), 2);
    assert!(lines[0].starts_with("00000000  00 01 02 03 04 05 06 07  08 09 0a 0b 0c 0d 0e 0f"));
    assert!(lines[1].starts_with("00000010  10"));
    assert!(lines[0].ends_with("|................|"));
}

#[test]
fn hex_dump_shows_printable_bytes_in_the_column() {
    let dump = bytes_to_hex(&b"a\x00b".to_vec());
    assert!(dump.contains("|a.b|"));
}

#[test]
fn code_extension_previews_as_text() {
    let p = build_preview("/src/main.rs".to_string(), b"fn main() {}".to_vec(), 12, 65536);
    assert!(matches!(p.preview_type, PreviewType::Code));
    assert_eq!(p.text_content.as_deref(), Some("fn main() {}"));
    assert_eq!(p.hex_content, None);
    assert_eq!(p.extension.as_deref(), Some("rs"));
    assert!(!p.truncated);
    assert_eq!(p.size, 12);
    assert_eq!(p.path, "/src/main.rs");
}

#[test]
fn image_extension_previews_without_content() {
    let p = build_preview("/pics/cat.PNG".to_string(), vec![1, 2, 3], 3, 65536);
    assert!(matches!(p.preview_type, PreviewType::Image));
    assert_eq!(p.text_content, None);
    assert_eq!(p.hex_content, None);
    assert_eq!(p.extension.as_deref(), Some("png"));
}

#[test]
fn binary_extension_previews_as_hex() {
    let p = build_preview("/bin/tool.so".to_string(), b"EL".to_vec(), 2, 65536);
    assert!(matches!(p.preview_type, PreviewType::Hex));
    assert_eq!(p.text_content, None);
    let hex = p.hex_content.expect("hex content");
    assert!(hex.starts_with("00000000  45 4c"));
}

#[test]
fn unknown_extension_sniffs_text() {
    let p = build_preview("/data/notes.unknownext".to_string(), b"hello".to_vec(), 5, 65536);
    assert!(matches!(p.preview_type, PreviewType::Code));
    assert_eq!(p.text_content.as_deref(), Some("hello"));
}

#[test]
fn unknown_extension_with_nul_byte_sniffs_binary() {
    let p = build_preview("/data/blob.unknownext".to_string(), vec![1, 0, 2], 3, 65536);
    assert!(matches!(p.preview_type, PreviewType::Hex));
    assert!(p.hex_content.is_some());
    assert_eq!(p.text_content, None);
}

#[test]
fn content_is_cut_at_the_byte_budget() {
    let p = build_preview("/data/long.txt".to_string(), b"hello world".to_vec(), 11, 4);
    assert!(p.truncated);
    assert_eq!(p.text_content.as_deref(), Some("hell"));
}
