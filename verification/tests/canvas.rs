use pluriview::canvas::{apply_pending_fps_changes, PendingFpsChange};
use pluriview::coordinator::{CaptureCoordinator, FrameDecision};
use pluriview::frame::{FpsPreset, PreviewId};
use pluriview::preview::PreviewManager;

#[test]
fn rate_change_restarts_session_with_new_rate() {
    let mut coordinator = CaptureCoordinator::new();
    let mut previews = PreviewManager::new();
    let id = previews.add_for_window(5, 0, "Feed".to_string());
    coordinator.start_capture(id, 5, "Feed".to_string(), 30);
    assert_eq!(coordinator.on_frame_arrived(id, 1_000, 1, 1, vec![0; 4]), FrameDecision::Forward);

    let changes = vec![PendingFpsChange { preview_id: id, new_fps: FpsPreset::High }];
    apply_pending_fps_changes(&changes, &mut previews, &mut coordinator);

    assert_eq!(coordinator.session_fps(id), Some(60));
    assert_eq!(previews.get(id).expect("present").rate(), 60);
    // The restarted session has a fresh gate: the next callback is its first
    // frame and goes through at once.
    assert_eq!(coordinator.on_frame_arrived(id, 2_000, 1, 1, vec![0; 4]), FrameDecision::Forward);
}

#[test]
fn unchanged_rate_keeps_running_session() {
    let mut coordinator = CaptureCoordinator::new();
    let mut previews = PreviewManager::new();
    let id = previews.add_for_window(5, 0, "Feed".to_string());
    coordinator.start_capture(id, 5, "Feed".to_string(), 30);
    assert_eq!(coordinator.on_frame_arrived(id, 1_000, 1, 1, vec![0; 4]), FrameDecision::Forward);

    // The preset maps to the rate the session already runs at: no restart,
    // so acceptance is still measured from the earlier accepted frame.
    let changes = vec![PendingFpsChange { preview_id: id, new_fps: FpsPreset::Medium }];
    apply_pending_fps_changes(&changes, &mut previews, &mut coordinator);
    assert_eq!(coordinator.on_frame_arrived(id, 2_000, 1, 1, vec![0; 4]), FrameDecision::Skip);
}

#[test]
fn rate_change_without_window_only_updates_preview() {
    let mut coordinator = CaptureCoordinator::new();
    let mut previews = PreviewManager::new();
    let id = previews.add("Detached".to_string());
    let changes = vec![PendingFpsChange { preview_id: id, new_fps: FpsPreset::Low }];
    apply_pending_fps_changes(&changes, &mut previews, &mut coordinator);
    assert_eq!(previews.get(id).expect("present").rate(), 15);
    assert_eq!(coordinator.session_count(), 0);
}

#[test]
fn rate_change_for_unknown_preview_is_dropped() {
    let mut coordinator = CaptureCoordinator::new();
    let mut previews = PreviewManager::new();
    let changes = vec![PendingFpsChange { preview_id: PreviewId(9), new_fps: FpsPreset::Low }];
    apply_pending_fps_changes(&changes, &mut previews, &mut coordinator);
    assert_eq!(previews.count(), 0);
    assert_eq!(coordinator.session_count(), 0);
}
