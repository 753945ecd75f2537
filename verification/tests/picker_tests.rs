use hardbore::picker::{parse_picker_args, PickerMode};

fn args(list: &[&str]) -> Vec<String> {
    let mut v = vec!["hardbore".to_string()];
    v.extend(list.iter().map(|s| s.to_string()));
    v
}

#[test]
fn no_flags_leave_the_picker_disabled() {
    let c = parse_picker_args(&args(&[]));
    assert_eq!(c.mode, PickerMode::Disabled);
    assert!(!c.allow_multiple);
    assert_eq!(c.file_types, None);
    assert_eq!(c.start_dir, None);
    assert_eq!(c.current_name, None);
}

#[test]
fn mode_flags_select_their_modes() {
    assert_eq!(parse_picker_args(&args(&["--picker"])).mode, PickerMode::Files);
    assert_eq!(parse_picker_args(&args(&["--picker-dirs"])).mode, PickerMode::Directories);
    assert_eq!(parse_picker_args(&args(&["--picker-both"])).mode, PickerMode::Both);
    assert_eq!(parse_picker_args(&args(&["--picker-save"])).mode, PickerMode::Save);
}

#[test]
fn later_mode_flag_wins() {
    let c = parse_picker_args(&args(&["--picker", "--picker-save"]));
    assert_eq!(c.mode, PickerMode::Save);
}

#[test]
fn valued_flags_consume_the_next_argument() {
    let c = parse_picker_args(&args(&[
        "--picker",
        "--multiple",
        "--types",
        "png,jpg",
        "--start-dir",
        "/x y",
    ]));
    assert_eq!(c.mode, PickerMode::Files);
    assert!(c.allow_multiple);
    assert_eq!(c.file_types, Some(vec!["png".to_string(), "jpg".to_string()]));
    assert_eq!(c.start_dir.as_deref(), Some("/x y"));
}

#[test]
fn save_mode_takes_a_current_name() {
    let c = parse_picker_args(&args(&["--picker-save", "--current-name", "draft.txt"]));
    assert_eq!(c.mode, PickerMode::Save);
    assert_eq!(c.current_name.as_deref(), Some("draft.txt"));
}

#[test]
fn dangling_valued_flag_is_ignored() {
    let c = parse_picker_args(&args(&["--picker", "--types"]));
    assert_eq!(c.mode, PickerMode::Files);
    assert_eq!(c.file_types, None);
}

#[test]
fn unknown_flags_are_skipped() {
    let c = parse_picker_args(&args(&["--wat", "--picker"]));
    assert_eq!(c.mode, PickerMode::Files);
}

#[test]
fn type_lists_split_at_every_comma() {
    let c = parse_picker_args(&args(&["--types", "a,,b"]));
    assert_eq!(
        c.file_types,
        Some(vec!["a".to_string(), String::new(), "b".to_string()])
    );
    let single = parse_picker_args(&args(&["--types", "png"]));
    assert_eq!(single.file_types, Some(vec!["png".to_string()]));
}
