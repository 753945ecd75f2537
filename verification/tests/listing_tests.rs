use hardbore::entry::{make_entry, FileEntry, RawMetadata, TargetMeta};
use hardbore::listing::build_directory_contents;

fn entry(name: &str, is_dir: bool, size: u64) -> FileEntry {
    let meta = RawMetadata {
        is_symlink: false,
        len: size,
        mode: if is_dir { 0o755 } else { 0o644 },
        modified: 0,
        owner: 0,
        group: 0,
        target: Some(TargetMeta { is_dir, len: size }),
    };
    make_entry(name.to_string(), format!("/tmp/d/{}", name), meta)
}

fn tmp_d() -> Vec<FileEntry> {
    vec![
        entry("a.txt", false, 3),
        entry("B.txt", false, 5),
        entry(".hidden", false, 0),
        entry("sub", true, 4096),
    ]
}

#[test]
fn directory_read_hides_dotfiles_and_sorts() {
    let c = build_directory_contents("/tmp/d".to_string(), Some("/tmp".to_string()), tmp_d(), false);
    let names: Vec<&str> = c.entries.iter().map(|e| e.name.as_str()).collect();
    assert_eq!(names, vec!["sub", "a.txt", "B.txt"]);
    assert_eq!(c.total_items, 3);
    assert_eq!(c.total_size, 8);
    assert_eq!(c.path, "/tmp/d");
    assert_eq!(c.parent.as_deref(), Some("/tmp"));
}

#[test]
fn directory_read_shows_dotfiles_on_request() {
    let c = build_directory_contents("/tmp/d".to_string(), Some("/tmp".to_string()), tmp_d(), true);
    let names: Vec<&str> = c.entries.iter().map(|e| e.name.as_str()).collect();
    assert_eq!(names, vec!["sub", ".hidden", "a.txt", "B.txt"]);
    assert_eq!(c.total_items, 4);
    assert_eq!(c.total_size, 8);
}

#[test]
fn listing_order_holds_between_neighbours() {
    let raw = vec![
        entry("zeta", false, 1),
        entry("Alpha", false, 1),
        entry("beta", true, 0),
        entry("Gamma", true, 0),
        entry("alpha2", false, 1),
    ];
    let c = build_directory_contents("/tmp/d".to_string(), None, raw, true);
    for pair in c.entries.windows(2) {
        let (a, b) = (&pair[0], &pair[1]);
        let ordered = (a.is_dir && !b.is_dir)
            || (a.is_dir == b.is_dir && a.name.to_lowercase() <= b.name.to_lowercase());
        assert!(ordered, "{} before {}", a.name, b.name);
    }
    let names: Vec<&str> = c.entries.iter().map(|e| e.name.as_str()).collect();
    assert_eq!(names, vec!["beta", "Gamma", "Alpha", "alpha2", "zeta"]);
}

#[test]
fn case_insensitive_order_interleaves_cases() {
    let raw = vec![entry("b.txt", false, 1), entry("A.txt", false, 1), entry("C.txt", false, 1)];
    let c = build_directory_contents("/tmp/d".to_string(), None, raw, false);
    let names: Vec<&str> = c.entries.iter().map(|e| e.name.as_str()).collect();
    assert_eq!(names, vec!["A.txt", "b.txt", "C.txt"]);
}

#[test]
fn totals_sum_file_sizes_including_hidden_zero() {
    let raw = vec![entry("x", false, 7), entry("y", false, 9), entry("d", true, 4096)];
    let c = build_directory_contents("/x".to_string(), Some("/".to_string()), raw, false);
    assert_eq!(c.total_items, 3);
    assert_eq!(c.total_size, 16);
}
