use pluriview::enumerator::WindowInfo;
use pluriview::resolver::resolve_target;

fn window(hwnd: isize, title: &str) -> WindowInfo {
    WindowInfo {
        hwnd,
        title: title.to_string(),
        process_id: 0,
        exe_name: String::new(),
        class_name: String::new(),
    }
}

#[test]
fn resolve_exact_match_wins() {
    let windows = vec![
        window(1, "Notepad - draft"),
        window(2, "Notepad"),
        window(3, "notepad"),
    ];
    // The first window already contains the request, but the exact,
    // case-sensitive match at index 1 is preferred.
    assert_eq!(resolve_target("Notepad", &windows), Some(1));
}

#[test]
fn resolve_partial_match_case_insensitive() {
    let windows = vec![window(1, "Editor"), window(2, "MY NOTEPAD WINDOW")];
    assert_eq!(resolve_target("notepad", &windows), Some(1));
}

#[test]
fn resolve_enumeration_chrome_tab() {
    let windows = vec![window(10, "Google Chrome - Tab X"), window(11, "Notepad")];
    assert_eq!(resolve_target("Chrome - Tab X", &windows), Some(0));
}

#[test]
fn resolve_reverse_containment() {
    // Only the widest tier matches: the request contains the candidate's
    // title, not the other way round.
    let windows = vec![window(7, "Tab")];
    assert_eq!(resolve_target("Chrome - Tab", &windows), Some(0));
}

#[test]
fn resolve_first_in_enumeration_order_within_tier() {
    let windows = vec![window(1, "alpha one"), window(2, "alpha two")];
    assert_eq!(resolve_target("ALPHA", &windows), Some(0));
}

#[test]
fn resolve_nothing_matches() {
    let windows = vec![window(1, "Calculator"), window(2, "Terminal")];
    assert_eq!(resolve_target("Notepad", &windows), None);
}

#[test]
fn resolve_empty_enumeration() {
    assert_eq!(resolve_target("anything", &Vec::new()), None);
}

#[test]
fn display_name_prefers_title() {
    let mut w = window(1, "A Window");
    w.exe_name = "app.exe".to_string();
    assert_eq!(w.display_name(), "A Window");
    w.title = String::new();
    assert_eq!(w.display_name(), "app.exe");
}
