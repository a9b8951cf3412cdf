use pluriview::storage::{layout_stem, sanitize_filename, timestamp_string, Storage};

#[test]
fn sanitize_keeps_safe_characters() {
    assert_eq!(sanitize_filename("My Layout-v2_final"), "My Layout-v2_final");
}

#[test]
fn sanitize_replaces_unsafe_characters() {
    assert_eq!(sanitize_filename("a/b\\c:d*e?"), "a_b_c_d_e_");
}

#[test]
fn sanitize_keeps_unicode_letters() {
    // Alphanumeric is judged by the Unicode property, not by ASCII.
    assert_eq!(sanitize_filename("café #1"), "café _1");
}

#[test]
fn sanitize_empty_name() {
    assert_eq!(sanitize_filename(""), "");
}

#[test]
fn timestamps_render_in_decimal() {
    assert_eq!(timestamp_string(0), "0");
    assert_eq!(timestamp_string(7), "7");
    assert_eq!(timestamp_string(42), "42");
    assert_eq!(timestamp_string(1_234_567_890), "1234567890");
    assert_eq!(timestamp_string(u64::MAX), "18446744073709551615");
}

#[test]
fn autosave_path_under_data_dir() {
    let storage = Storage::from_dir("data".to_string());
    assert_eq!(storage.autosave_path(), "data/autosave.json");
    assert_eq!(storage.data_dir(), "data");
}

#[test]
fn layout_paths_are_sanitized() {
    let storage = Storage::from_dir("data".to_string());
    assert_eq!(storage.layouts_dir(), "data/layouts");
    assert_eq!(storage.layout_path("My Layout!"), "data/layouts/My Layout_.json");
}

#[test]
fn layout_stem_strips_ending() {
    assert_eq!(layout_stem("work.json").as_deref(), Some("work"));
    assert_eq!(layout_stem(".json").as_deref(), Some(""));
    assert_eq!(layout_stem("work.txt"), None);
    assert_eq!(layout_stem("js"), None);
}
