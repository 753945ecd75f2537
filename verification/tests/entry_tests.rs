use hardbore::entry::{
    basename_of, make_entry, mode_to_string, parent_of, RawMetadata, TargetMeta,
};

fn file_meta(len: u64, mode: u32) -> RawMetadata {
    RawMetadata {
        is_symlink: false,
        len,
        mode,
        modified: 1_700_000_000,
        owner: 1000,
        group: 1000,
        target: Some(TargetMeta { is_dir: false, len }),
    }
}

fn dir_meta(mode: u32) -> RawMetadata {
    RawMetadata {
        is_symlink: false,
        len: 4096,
        mode,
        modified: 1_700_000_000,
        owner: 1000,
        group: 1000,
        target: Some(TargetMeta { is_dir: true, len: 4096 }),
    }
}

#[test]
fn directory_entry_has_no_size_and_no_extension() {
    let e = make_entry("src.d".to_string(), "/tmp/src.d".to_string(), dir_meta(0o755));
    assert!(e.is_dir);
    assert_eq!(e.size, 0);
    assert_eq!(e.extension, None);
}

#[test]
fn hidden_tracks_leading_dot() {
    let h = make_entry(".config".to_string(), "/tmp/.config".to_string(), file_meta(10, 0o644));
    assert!(h.hidden);
    let v = make_entry("config".to_string(), "/tmp/config".to_string(), file_meta(10, 0o644));
    assert!(!v.hidden);
}

#[test]
fn extension_is_lowercased_suffix() {
    let e = make_entry("Notes.TXT".to_string(), "/tmp/Notes.TXT".to_string(), file_meta(3, 0o644));
    assert_eq!(e.extension.as_deref(), Some("txt"));
}

#[test]
fn extension_of_dotfile_is_absent() {
    let e = make_entry(".hidden".to_string(), "/tmp/.hidden".to_string(), file_meta(0, 0o644));
    assert_eq!(e.extension, None);
}

#[test]
fn extension_of_trailing_dot_is_empty() {
    let e = make_entry("foo.".to_string(), "/tmp/foo.".to_string(), file_meta(1, 0o644));
    assert_eq!(e.extension.as_deref(), Some(""));
}

#[test]
fn extension_takes_last_dot() {
    let e = make_entry(
        "archive.tar.gz".to_string(),
        "/tmp/archive.tar.gz".to_string(),
        file_meta(1, 0o644),
    );
    assert_eq!(e.extension.as_deref(), Some("gz"));
}

#[test]
fn extensionless_name_has_none() {
    let e = make_entry("Makefile2".to_string(), "/tmp/Makefile2".to_string(), file_meta(1, 0o644));
    assert_eq!(e.extension, None);
}

#[test]
fn symlink_with_unreadable_target_keeps_link_size() {
    let meta = RawMetadata {
        is_symlink: true,
        len: 11,
        mode: 0o777,
        modified: 5,
        owner: 0,
        group: 0,
        target: None,
    };
    let e = make_entry("dangling".to_string(), "/tmp/dangling".to_string(), meta);
    assert!(e.is_symlink);
    assert!(!e.is_dir);
    assert_eq!(e.size, 11);
}

#[test]
fn symlink_to_directory_classifies_as_directory() {
    let meta = RawMetadata {
        is_symlink: true,
        len: 9,
        mode: 0o777,
        modified: 5,
        owner: 0,
        group: 0,
        target: Some(TargetMeta { is_dir: true, len: 4096 }),
    };
    let e = make_entry("link".to_string(), "/tmp/link".to_string(), meta);
    assert!(e.is_symlink);
    assert!(e.is_dir);
    assert_eq!(e.size, 0);
}

#[test]
fn permission_strings_render_mode_bits() {
    assert_eq!(mode_to_string(0o755, true), "drwxr-xr-x");
    assert_eq!(mode_to_string(0o644, false), "-rw-r--r--");
    assert_eq!(mode_to_string(0o000, false), "----------");
}

#[test]
fn entry_carries_metadata_through() {
    let e = make_entry("a.txt".to_string(), "/tmp/a.txt".to_string(), file_meta(3, 0o644));
    assert_eq!(e.name, "a.txt");
    assert_eq!(e.path, "/tmp/a.txt");
    assert_eq!(e.size, 3);
    assert_eq!(e.modified, 1_700_000_000);
    assert_eq!(e.owner, 1000);
    assert_eq!(e.group, 1000);
    assert_eq!(e.permissions, "-rw-r--r--");
}

#[test]
fn parent_of_walks_one_level_up() {
    assert_eq!(parent_of("/tmp/d").as_deref(), Some("/tmp"));
    assert_eq!(parent_of("/a").as_deref(), Some("/"));
    assert_eq!(parent_of("/"), None);
    assert_eq!(parent_of("plain").as_deref(), Some(""));
    assert_eq!(parent_of(""), None);
}

#[test]
fn basename_is_the_final_component() {
    assert_eq!(basename_of("/tmp/a/b.txt"), "b.txt");
    assert_eq!(basename_of("b.txt"), "b.txt");
}
