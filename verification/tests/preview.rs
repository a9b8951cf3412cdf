use pluriview::frame::{FpsPreset, PreviewId};
use pluriview::preview::{Preview, PreviewManager};

#[test]
fn identifiers_are_fresh_and_unique() {
    let mut manager = PreviewManager::new();
    let a = manager.add("a".to_string());
    let b = manager.add("b".to_string());
    assert_eq!(a, PreviewId(1));
    assert_eq!(b, PreviewId(2));
    manager.remove(a);
    let c = manager.add("c".to_string());
    assert_eq!(c, PreviewId(3));
    assert_eq!(manager.count(), 2);
}

#[test]
fn remove_and_clear() {
    let mut manager = PreviewManager::new();
    let a = manager.add("a".to_string());
    let b = manager.add("b".to_string());
    manager.remove(a);
    assert!(manager.get(a).is_none());
    assert!(manager.get(b).is_some());
    manager.clear();
    assert_eq!(manager.count(), 0);
    // After a clear the identifier counter starts over.
    assert_eq!(manager.add("again".to_string()), PreviewId(1));
}

#[test]
fn add_for_window_attaches_handle() {
    let mut manager = PreviewManager::new();
    let id = manager.add_for_window(0x40, 1234, "Captured".to_string());
    let preview = manager.get(id).expect("just added");
    let handle = preview.handle().expect("handle attached");
    assert_eq!(handle.hwnd, 0x40);
    assert_eq!(handle.process_id, 1234);
    let targets = manager.get_capture_targets();
    assert_eq!(targets, vec![(id, 0x40)]);
}

#[test]
fn add_with_window_restores_settings() {
    let mut manager = PreviewManager::new();
    let id = manager.add_with_window("Saved".to_string(), 7, FpsPreset::High, 5);
    let preview = manager.get(id).expect("just added");
    assert_eq!(preview.fps_preset, FpsPreset::High);
    assert_eq!(preview.rate(), 60);
    assert_eq!(preview.z_order, 5);
}

#[test]
fn fps_preset_values() {
    assert_eq!(FpsPreset::Low.as_u32(), 15);
    assert_eq!(FpsPreset::Medium.as_u32(), 30);
    assert_eq!(FpsPreset::High.as_u32(), 60);
    assert_eq!(FpsPreset::default(), FpsPreset::Medium);
    assert_eq!(FpsPreset::Low.label(), "15 FPS (Low)");
    assert_eq!(FpsPreset::Medium.label(), "30 FPS (Medium)");
    assert_eq!(FpsPreset::High.label(), "60 FPS (High)");
}

#[test]
fn mailbox_holds_one_frame_newest_wins() {
    let mut preview = Preview::new(PreviewId(1), "p".to_string());
    assert!(!preview.has_pending_frame());
    preview.update_frame(2, 2, vec![1; 16]);
    preview.update_frame(2, 2, vec![2; 16]);
    assert!(preview.has_pending_frame());
    let taken = preview.take_frame().expect("slot filled");
    assert_eq!(taken.data, vec![2; 16]);
    assert!(preview.take_frame().is_none());
    assert!(!preview.has_pending_frame());
}

#[test]
fn update_frame_remembers_nonempty_dimensions() {
    let mut preview = Preview::new(PreviewId(1), "p".to_string());
    preview.update_frame(640, 480, vec![0; 640 * 480 * 4]);
    assert_eq!(preview.frame_size, Some((640, 480)));
    // Empty dimensions do not overwrite the remembered size.
    preview.update_frame(0, 0, Vec::new());
    assert_eq!(preview.frame_size, Some((640, 480)));
}

#[test]
fn set_fps_preset_updates_rate() {
    let mut manager = PreviewManager::new();
    let id = manager.add("p".to_string());
    assert!(manager.set_fps_preset(id, FpsPreset::Low));
    let preview = manager.get(id).expect("present");
    assert_eq!(preview.fps_preset, FpsPreset::Low);
    assert_eq!(preview.rate(), 15);
    assert!(!manager.set_fps_preset(PreviewId(99), FpsPreset::Low));
}

#[test]
fn capture_flags_and_active_query() {
    let mut manager = PreviewManager::new();
    let id = manager.add("p".to_string());
    assert!(!manager.has_active_captures());
    assert!(manager.set_capture_active(id, true));
    assert!(manager.has_active_captures());
    assert!(manager.set_capture_paused(id, true));
    let preview = manager.get(id).expect("present");
    assert!(preview.capture_active);
    assert!(preview.capture_paused);
}

#[test]
fn bring_to_front_raises_z_order() {
    let mut manager = PreviewManager::new();
    let a = manager.add("a".to_string());
    let b = manager.add("b".to_string());
    assert!(manager.bring_to_front(a));
    let za = manager.get(a).expect("a").z_order;
    let zb = manager.get(b).expect("b").z_order;
    assert!(za > zb);
    assert!(!manager.bring_to_front(PreviewId(42)));
}

#[test]
fn send_to_back_renumbers_densely() {
    let mut manager = PreviewManager::new();
    let a = manager.add("a".to_string());
    let b = manager.add("b".to_string());
    let c = manager.add("c".to_string());
    // Fresh previews carry z-orders 1, 2, 3; sending the topmost to the back
    // renumbers everything densely from zero with it at the bottom.
    manager.send_to_back(c);
    assert_eq!(manager.get(c).expect("c").z_order, 0);
    assert_eq!(manager.get(a).expect("a").z_order, 1);
    assert_eq!(manager.get(b).expect("b").z_order, 2);
}

#[test]
fn all_ids_in_registry_order() {
    let mut manager = PreviewManager::new();
    let a = manager.add("a".to_string());
    let b = manager.add("b".to_string());
    let c = manager.add("c".to_string());
    assert_eq!(manager.all_ids(), vec![a, b, c]);
}
