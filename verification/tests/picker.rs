use pluriview::enumerator::{should_list_window, WindowInfo, WS_EX_APPWINDOW, WS_EX_TOOLWINDOW};
use pluriview::picker::WindowPicker;

fn window(title: &str, exe: &str) -> WindowInfo {
    WindowInfo {
        hwnd: 0,
        title: title.to_string(),
        process_id: 0,
        exe_name: exe.to_string(),
        class_name: String::new(),
    }
}

#[test]
fn fresh_picker_is_due_for_refresh() {
    let picker = WindowPicker::new();
    assert_eq!(picker.window_count(), 0);
    assert!(picker.needs_refresh(3_000_000));
    assert!(!picker.needs_refresh(1_000_000));
}

#[test]
fn refresh_resets_staleness() {
    let mut picker = WindowPicker::new();
    picker.refresh(vec![window("One", "one.exe")], 10_000_000);
    assert_eq!(picker.window_count(), 1);
    // The interval is two seconds, strictly exceeded.
    assert!(!picker.needs_refresh(12_000_000));
    assert!(picker.needs_refresh(12_000_001));
}

#[test]
fn empty_filter_keeps_everything() {
    let mut picker = WindowPicker::new();
    picker.refresh(vec![window("Notepad", "notepad.exe"), window("Chrome", "chrome.exe")], 0);
    assert_eq!(picker.filtered_indices(), vec![0, 1]);
}

#[test]
fn filter_matches_title_case_insensitively() {
    let mut picker = WindowPicker::new();
    picker.refresh(vec![window("Notepad", "notepad.exe"), window("Chrome", "chrome.exe")], 0);
    picker.set_search_filter("NOTE".to_string());
    assert_eq!(picker.filtered_indices(), vec![0]);
    picker.set_search_filter("chro".to_string());
    assert_eq!(picker.filtered_indices(), vec![1]);
}

#[test]
fn filter_matches_executable_name() {
    let mut picker = WindowPicker::new();
    picker.refresh(vec![window("Untitled", "notepad.exe"), window("Chrome", "chrome.exe")], 0);
    picker.set_search_filter("exe".to_string());
    assert_eq!(picker.filtered_indices(), vec![0, 1]);
    picker.set_search_filter("nomatch".to_string());
    assert_eq!(picker.filtered_indices(), Vec::<usize>::new());
}

#[test]
fn listing_requires_visibility_title_and_ownership() {
    let title = "App".to_string();
    let class = "AppClass".to_string();
    assert!(should_list_window(true, 0, true, &title, &class));
    assert!(!should_list_window(false, 0, true, &title, &class));
    assert!(!should_list_window(true, 0, false, &title, &class));
    assert!(!should_list_window(true, 0, true, &String::new(), &class));
}

#[test]
fn tool_windows_skipped_unless_app_windows() {
    let title = "Palette".to_string();
    let class = "Tool".to_string();
    assert!(!should_list_window(true, WS_EX_TOOLWINDOW, true, &title, &class));
    assert!(should_list_window(
        true,
        WS_EX_TOOLWINDOW | WS_EX_APPWINDOW,
        true,
        &title,
        &class,
    ));
}

#[test]
fn shell_surfaces_and_own_windows_skipped() {
    let title = "Program Manager".to_string();
    for class in ["Progman", "WorkerW", "Shell_TrayWnd", "Windows.UI.Core.CoreWindow"] {
        assert!(!should_list_window(true, 0, true, &title, &class.to_string()));
    }
    let own = "Pluriview - main".to_string();
    assert!(!should_list_window(true, 0, true, &own, &"Normal".to_string()));
}
