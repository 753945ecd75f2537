use hardbore::portal::{
    build_response, extract_bool, extract_current_folder, extract_current_name, extract_filenames,
    parse_filters, reply_for_selection, save_files_reply, save_files_uris, selected_paths,
    FileChooserPortal, PortalOptions, PortalValue,
};

fn opts(pairs: Vec<(&str, PortalValue)>) -> PortalOptions {
    let mut o = PortalOptions::new();
    for (k, v) in pairs {
        o.insert(k.to_string(), v);
    }
    o
}

fn byte_arr(bytes: &[u8]) -> PortalValue {
    PortalValue::Arr(bytes.iter().map(|b| PortalValue::Num(*b as u64)).collect())
}

#[test]
fn bool_options_default_to_false() {
    let o = opts(vec![("multiple", PortalValue::Bool(true))]);
    assert!(extract_bool(&o, "multiple"));
    assert!(!extract_bool(&o, "directory"));
    let o2 = opts(vec![("multiple", PortalValue::Str("yes".to_string()))]);
    assert!(!extract_bool(&o2, "multiple"));
}

#[test]
fn current_folder_reads_strings() {
    let o = opts(vec![("current_folder", PortalValue::Str("/home/u".to_string()))]);
    assert_eq!(extract_current_folder(&o).as_deref(), Some("/home/u"));
    let empty = opts(vec![("current_folder", PortalValue::Str(String::new()))]);
    assert_eq!(extract_current_folder(&empty), None);
    assert_eq!(extract_current_folder(&opts(vec![])), None);
}

#[test]
fn current_folder_reads_nul_terminated_bytes() {
    let o = opts(vec![("current_folder", byte_arr(b"/home/u\0"))]);
    assert_eq!(extract_current_folder(&o).as_deref(), Some("/home/u"));
    let no_nul = opts(vec![("current_folder", byte_arr(b"/srv"))]);
    assert_eq!(extract_current_folder(&no_nul).as_deref(), Some("/srv"));
    let only_nul = opts(vec![("current_folder", byte_arr(b"\0rest"))]);
    assert_eq!(extract_current_folder(&only_nul), None);
}

#[test]
fn current_folder_rejects_invalid_utf8() {
    let o = opts(vec![("current_folder", byte_arr(&[0xff, 0xfe]))]);
    assert_eq!(extract_current_folder(&o), None);
}

#[test]
fn current_name_is_string_only() {
    let o = opts(vec![("current_name", PortalValue::Str("draft.txt".to_string()))]);
    assert_eq!(extract_current_name(&o).as_deref(), Some("draft.txt"));
    let b = opts(vec![("current_name", byte_arr(b"draft.txt\0"))]);
    assert_eq!(extract_current_name(&b), None);
    let empty = opts(vec![("current_name", PortalValue::Str(String::new()))]);
    assert_eq!(extract_current_name(&empty), None);
}

#[test]
fn filenames_accept_strings_and_byte_arrays() {
    let o = opts(vec![(
        "files",
        PortalValue::Arr(vec![
            PortalValue::Str("a.txt".to_string()),
            byte_arr(b"b.txt\0"),
            PortalValue::Bool(true),
        ]),
    )]);
    assert_eq!(extract_filenames(&o), vec!["a.txt".to_string(), "b.txt".to_string()]);
    assert_eq!(extract_filenames(&opts(vec![])), Vec::<String>::new());
}

fn images_filter() -> PortalValue {
    PortalValue::Arr(vec![PortalValue::Arr(vec![
        PortalValue::Str("Images".to_string()),
        PortalValue::Arr(vec![
            PortalValue::Arr(vec![PortalValue::Num(0), PortalValue::Str("*.png".to_string())]),
            PortalValue::Arr(vec![PortalValue::Num(0), PortalValue::Str("*.jpg".to_string())]),
        ]),
    ])])
}

#[test]
fn filters_keep_only_typed_globs() {
    let o = opts(vec![("filters", images_filter())]);
    let fs = parse_filters(&o);
    assert_eq!(fs.len(), 1);
    assert_eq!(fs[0].name, "Images");
    assert_eq!(fs[0].patterns, vec!["*.png".to_string(), "*.jpg".to_string()]);
}

#[test]
fn filters_drop_mime_patterns_and_empty_filters() {
    let o = opts(vec![(
        "filters",
        PortalValue::Arr(vec![PortalValue::Arr(vec![
            PortalValue::Str("Mime".to_string()),
            PortalValue::Arr(vec![PortalValue::Arr(vec![
                PortalValue::Num(1),
                PortalValue::Str("image/png".to_string()),
            ])]),
        ])]),
    )]);
    assert_eq!(parse_filters(&o).len(), 0);
}

#[test]
fn filter_translation_reaches_the_argv() {
    let o = opts(vec![("filters", images_filter())]);
    let args = FileChooserPortal::open_file_args(&o);
    assert_eq!(args[0], "--picker");
    let at = args.iter().position(|a| a == "--types").expect("no --types");
    assert_eq!(args[at + 1], "png,jpg");
}

#[test]
fn open_file_args_honour_directory_and_multiple() {
    let o = opts(vec![
        ("directory", PortalValue::Bool(true)),
        ("multiple", PortalValue::Bool(true)),
        ("current_folder", PortalValue::Str("/start".to_string())),
    ]);
    let args = FileChooserPortal::open_file_args(&o);
    assert_eq!(
        args,
        vec![
            "--picker-dirs".to_string(),
            "--multiple".to_string(),
            "--start-dir".to_string(),
            "/start".to_string(),
        ]
    );
}

#[test]
fn save_file_args_force_save_mode_without_multiple() {
    let o = opts(vec![
        ("multiple", PortalValue::Bool(true)),
        ("current_name", PortalValue::Str("draft.txt".to_string())),
    ]);
    let args = FileChooserPortal::save_file_args(&o);
    assert_eq!(
        args,
        vec!["--picker-save".to_string(), "--current-name".to_string(), "draft.txt".to_string()]
    );
}

#[test]
fn stdout_protocol_strips_selection_prefix() {
    let lines = vec![
        "HARDBORE_SELECTED:/tmp/a.txt".to_string(),
        "noise".to_string(),
        "HARDBORE_SELECTED:/tmp/b c.txt".to_string(),
    ];
    assert_eq!(selected_paths(&lines), vec!["/tmp/a.txt".to_string(), "/tmp/b c.txt".to_string()]);
}

#[test]
fn cancelled_picker_yields_code_one() {
    let lines = vec!["HARDBORE_CANCELLED".to_string()];
    let selected = selected_paths(&lines);
    assert_eq!(selected.len(), 0);
    let reply = reply_for_selection(&selected);
    assert_eq!(reply.code, 1);
    assert_eq!(reply.uris.len(), 0);
}

#[test]
fn selection_reply_carries_encoded_uris() {
    let selected = vec!["/tmp/a b.txt".to_string()];
    let reply = reply_for_selection(&selected);
    assert_eq!(reply.code, 0);
    assert_eq!(reply.uris, vec!["file:///tmp/a%20b.txt".to_string()]);
}

#[test]
fn empty_uris_build_a_cancellation() {
    let reply = build_response(Vec::new());
    assert_eq!(reply.code, 1);
    assert_eq!(reply.uris.len(), 0);
}

#[test]
fn save_files_join_names_under_the_directory() {
    let uris = save_files_uris("/dest", &vec!["a.txt".to_string(), "b.txt".to_string()]);
    assert_eq!(
        uris,
        vec!["file:///dest/a.txt".to_string(), "file:///dest/b.txt".to_string()]
    );
    let alone = save_files_uris("/dest", &Vec::new());
    assert_eq!(alone, vec!["file:///dest".to_string()]);
}

#[test]
fn save_files_reply_handles_cancel_and_success() {
    let o = opts(vec![(
        "files",
        PortalValue::Arr(vec![PortalValue::Str("x.txt".to_string())]),
    )]);
    let cancelled = save_files_reply(&Vec::new(), &o);
    assert_eq!(cancelled.code, 1);
    assert_eq!(cancelled.uris.len(), 0);
    let done = save_files_reply(&vec!["/dest".to_string()], &o);
    assert_eq!(done.code, 0);
    assert_eq!(done.uris, vec!["file:///dest/x.txt".to_string()]);
}

#[test]
fn interface_version_is_three() {
    assert_eq!(FileChooserPortal::version(), 3);
}

#[test]
fn portal_remembers_its_picker_path() {
    let p = FileChooserPortal::with_picker_path("/usr/bin/hardbore".to_string());
    assert_eq!(p.picker_path, "/usr/bin/hardbore");
}
