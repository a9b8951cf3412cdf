use pluriview::coordinator::{CaptureCoordinator, FrameDecision};
use pluriview::frame::{CapturedFrame, PreviewId};
use pluriview::preview::PreviewManager;

fn frame(id: PreviewId, width: u32, height: u32, fill: u8) -> CapturedFrame {
    CapturedFrame { preview_id: id, width, height, data: vec![fill; (width * height * 4) as usize] }
}

#[test]
fn throttled_session_forwards_one_of_two_close_frames() {
    // Start a session at 30 frames per second and inject two callbacks
    // 10 ms apart: the interval requirement of about 33 ms lets exactly one
    // frame through.
    let mut coordinator = CaptureCoordinator::new();
    let mut previews = PreviewManager::new();
    let id = previews.add("Notepad".to_string());
    coordinator.start_capture(id, 42, "Notepad".to_string(), 30);

    let first = coordinator.on_frame_arrived(id, 1_000_000, 2, 2, vec![1; 16]);
    let second = coordinator.on_frame_arrived(id, 1_010_000, 2, 2, vec![2; 16]);
    assert_eq!(first, FrameDecision::Forward);
    assert_eq!(second, FrameDecision::Skip);
    assert_eq!(coordinator.pending_frames(), 1);

    coordinator.process_frames(&mut previews);
    let delivered = previews.take_frame(id).expect("one frame must be delivered");
    assert_eq!(delivered.data, vec![1; 16]);
    assert!(previews.take_frame(id).is_none());
}

#[test]
fn restart_replaces_session() {
    // Starting twice for the same identifier leaves exactly one session,
    // the one started last.
    let mut coordinator = CaptureCoordinator::new();
    let id = PreviewId(2);
    coordinator.start_capture(id, 7, "Alpha".to_string(), 30);
    coordinator.start_capture(id, 8, "Beta".to_string(), 30);
    assert_eq!(coordinator.session_count(), 1);
    assert!(coordinator.is_capturing(id));
    assert_eq!(coordinator.session_title(id).as_deref(), Some("Beta"));
}

#[test]
fn paused_session_forwards_nothing_until_resumed() {
    let mut coordinator = CaptureCoordinator::new();
    let mut previews = PreviewManager::new();
    let id = previews.add("Window".to_string());
    coordinator.start_capture(id, 3, "Window".to_string(), 60);
    assert!(coordinator.pause_capture(id));
    assert!(coordinator.is_paused(id));

    for i in 0..5u64 {
        let decision = coordinator.on_frame_arrived(id, 1_000_000 * (i + 1), 1, 1, vec![0; 4]);
        assert_eq!(decision, FrameDecision::Skip);
    }
    coordinator.process_frames(&mut previews);
    assert!(!previews.has_pending_frame(id));

    assert!(coordinator.resume_capture(id));
    assert!(!coordinator.is_paused(id));
    let decision = coordinator.on_frame_arrived(id, 9_000_000, 1, 1, vec![5; 4]);
    assert_eq!(decision, FrameDecision::Forward);
    coordinator.process_frames(&mut previews);
    assert!(previews.has_pending_frame(id));
    let delivered = previews.take_frame(id).expect("resumed frame must arrive");
    assert_eq!(delivered.data, vec![5; 4]);
    assert!(previews.take_frame(id).is_none());
}

#[test]
fn drain_consumes_at_most_the_cap() {
    // Fifteen pending frames: a first bounded drain consumes exactly ten and
    // leaves five queued; a second drain consumes the remaining five.
    let mut coordinator = CaptureCoordinator::new();
    let mut previews = PreviewManager::new();
    let id = previews.add("Feed".to_string());
    for i in 0..15u8 {
        coordinator.submit_frame(frame(id, 1, 1, i));
    }
    assert_eq!(coordinator.pending_frames(), 15);
    assert_eq!(coordinator.drain(&mut previews, 10), 10);
    assert_eq!(coordinator.pending_frames(), 5);
    assert_eq!(coordinator.drain(&mut previews, 10), 5);
    assert_eq!(coordinator.pending_frames(), 0);
    // The mailbox superseded older frames; the newest one wins.
    assert_eq!(previews.take_frame(id).expect("a frame is pending").data, vec![14; 4]);
}

#[test]
fn stop_all_empties_registry() {
    let mut coordinator = CaptureCoordinator::new();
    let ids = [PreviewId(1), PreviewId(2), PreviewId(3), PreviewId(4)];
    for (i, id) in ids.iter().enumerate() {
        coordinator.start_capture(*id, i as isize, format!("w{}", i), 15);
    }
    assert_eq!(coordinator.session_count(), 4);
    coordinator.stop_all();
    assert_eq!(coordinator.session_count(), 0);
    for id in ids {
        assert!(!coordinator.is_capturing(id));
    }
}

#[test]
fn stopped_session_tells_worker_to_stop() {
    let mut coordinator = CaptureCoordinator::new();
    let id = PreviewId(9);
    coordinator.start_capture(id, 1, "Gone".to_string(), 30);
    assert!(coordinator.stop_capture(id));
    assert!(!coordinator.is_capturing(id));
    let decision = coordinator.on_frame_arrived(id, 5_000_000, 1, 1, vec![0; 4]);
    assert_eq!(decision, FrameDecision::Stop);
    assert_eq!(coordinator.pending_frames(), 0);
}

#[test]
fn pause_of_unknown_session_is_no_op() {
    let mut coordinator = CaptureCoordinator::new();
    assert!(!coordinator.pause_capture(PreviewId(77)));
    assert!(!coordinator.resume_capture(PreviewId(77)));
    assert!(!coordinator.stop_capture(PreviewId(77)));
    assert!(!coordinator.is_paused(PreviewId(77)));
}

#[test]
fn set_target_fps_applies_on_restart() {
    let mut coordinator = CaptureCoordinator::new();
    let id = PreviewId(5);
    coordinator.start_capture(id, 1, "W".to_string(), 30);
    assert!(coordinator.set_target_fps(id, 60));
    assert_eq!(coordinator.session_fps(id), Some(60));
    // The running gate keeps the old interval: a frame 20 ms after the first
    // is still rejected, as at 30 frames per second.
    assert_eq!(coordinator.on_frame_arrived(id, 1_000, 1, 1, vec![0; 4]), FrameDecision::Forward);
    assert_eq!(coordinator.on_frame_arrived(id, 21_000, 1, 1, vec![0; 4]), FrameDecision::Skip);
}

#[test]
fn frames_route_to_their_own_mailboxes() {
    let mut coordinator = CaptureCoordinator::new();
    let mut previews = PreviewManager::new();
    let left = previews.add("Left".to_string());
    let right = previews.add("Right".to_string());
    coordinator.submit_frame(frame(left, 2, 1, 1));
    coordinator.submit_frame(frame(right, 1, 2, 2));
    coordinator.process_frames(&mut previews);
    assert_eq!(previews.take_frame(left).expect("left frame").width, 2);
    assert_eq!(previews.take_frame(right).expect("right frame").height, 2);
}

#[test]
fn frame_for_removed_preview_is_dropped() {
    let mut coordinator = CaptureCoordinator::new();
    let mut previews = PreviewManager::new();
    let id = previews.add("Ghosted".to_string());
    previews.remove(id);
    coordinator.submit_frame(frame(id, 1, 1, 0));
    assert_eq!(coordinator.drain(&mut previews, 10), 1);
    assert!(!previews.has_pending_frame(id));
}
