//! Plain data the canvas exchanges with the capture core: which resize
//! handle an interaction grabbed, and a rate change picked in the interface
//! but applied only after the interaction pass ends — together with the rule
//! for applying a batch of such changes.

use vstd::prelude::*;
use crate::coordinator::{fresh_session, start_model, CaptureCoordinator, SessionModel};
use crate::frame::{FpsPreset, PreviewId};
use crate::preview::{has_preview, preview_ix, PreviewManager, PreviewModel};

verus! {

/// Resize handle positions on a preview's border.
#[derive(Clone, Copy, Debug, PartialEq, Eq, Structural)]
pub enum ResizeHandle {
    TopLeft,
    Top,
    TopRight,
    Left,
    Right,
    BottomLeft,
    Bottom,
    BottomRight,
}

/// A rate change picked during an interface pass, to be applied afterwards.
#[derive(Clone, Copy, Debug, PartialEq, Eq, Structural)]
pub struct PendingFpsChange {
    pub preview_id: PreviewId,
    pub new_fps: FpsPreset,
}

/// One rate change applied to the previews and the session registry: the
/// preview, when it exists, takes the preset; and when that actually changed
/// its rate and a window is attached, the session is restarted at the new
/// rate. A change for an unknown preview does nothing.
pub open spec fn fps_change_step(
    pm: Seq<PreviewModel>,
    sessions: Seq<SessionModel>,
    change: PendingFpsChange,
) -> (Seq<PreviewModel>, Seq<SessionModel>) {
    if !has_preview(pm, change.preview_id.0) {
        (pm, sessions)
    } else {
        let ix = preview_ix(pm, change.preview_id.0);
        let p = pm[ix];
        let pm2 = pm.update(
            ix,
            PreviewModel {
                fps_preset: change.new_fps,
                target_fps: change.new_fps.spec_rate(),
                ..p
            },
        );
        if change.new_fps.spec_rate() != p.target_fps && p.window_handle is Some {
            (
                pm2,
                start_model(
                    sessions,
                    fresh_session(
                        change.preview_id.0,
                        p.window_handle.unwrap().hwnd,
                        p.title,
                        change.new_fps.spec_rate(),
                    ),
                ),
            )
        } else {
            (pm2, sessions)
        }
    }
}

/// A batch of rate changes applied in order.
pub open spec fn fps_changes_model(
    pm: Seq<PreviewModel>,
    sessions: Seq<SessionModel>,
    changes: Seq<PendingFpsChange>,
) -> (Seq<PreviewModel>, Seq<SessionModel>)
    decreases changes.len(),
{
    if changes.len() == 0 {
        (pm, sessions)
    } else {
        let stepped = fps_change_step(pm, sessions, changes[0]);
        fps_changes_model(stepped.0, stepped.1, changes.drop_first())
    }
}

/// Apply the rate changes picked during an interface pass: each preview
/// takes its preset, and a session whose rate actually changed is restarted
/// at the new rate.
pub fn apply_pending_fps_changes(
    changes: &Vec<PendingFpsChange>,
    previews: &mut PreviewManager,
    coordinator: &mut CaptureCoordinator,
)
    requires
        old(previews).wf(),
        old(coordinator).wf(),
    ensures
        final(previews).wf(),
        final(coordinator).wf(),
        final(previews).spec_next_id() == old(previews).spec_next_id(),
        final(previews).spec_max_z() == old(previews).spec_max_z(),
        final(coordinator).channel_view() == old(coordinator).channel_view(),
        ({
            let outcome = fps_changes_model(
                old(previews)@,
                old(coordinator).sessions_view(),
                changes@,
            );
            final(previews)@ == outcome.0 && final(coordinator).sessions_view() == outcome.1
        }),
{
    let ghost pm0 = previews@;
    let ghost s0 = coordinator.sessions_view();
    let n = changes.len();
    let mut j: usize = 0;
    proof {
        assert(changes@.skip(0) =~= changes@);
    }
    while j < n
        invariant
            j <= n,
            n == changes@.len(),
            previews.wf(),
            coordinator.wf(),
            previews.spec_next_id() == old(previews).spec_next_id(),
            previews.spec_max_z() == old(previews).spec_max_z(),
            coordinator.channel_view() == old(coordinator).channel_view(),
            fps_changes_model(pm0, s0, changes@) == fps_changes_model(
                previews@,
                coordinator.sessions_view(),
                changes@.skip(j as int),
            ),
        decreases n - j,
    {
        let change = changes[j];
        let ghost pm_now = previews@;
        let ghost s_now = coordinator.sessions_view();
        proof {
            assert(changes@.skip(j as int)[0] == changes@[j as int]);
            assert(changes@.skip(j as int).drop_first() =~= changes@.skip(j as int + 1));
        }
        match previews.get(change.preview_id) {
            Some(preview) => {
                let old_fps = preview.rate();
                let handle = preview.handle();
                let title = preview.title_string();
                previews.set_fps_preset(change.preview_id, change.new_fps);
                let new_fps = change.new_fps.as_u32();
                if new_fps != old_fps {
                    match handle {
                        Some(h) => {
                            coordinator.start_capture(change.preview_id, h.hwnd, title, new_fps);
                        },
                        None => {},
                    }
                }
            },
            None => {},
        }
        proof {
            let stepped = fps_change_step(pm_now, s_now, change);
            assert(previews@ == stepped.0);
            assert(coordinator.sessions_view() == stepped.1);
        }
        j = j + 1;
    }
    proof {
        assert(changes@.skip(n as int) =~= Seq::<PendingFpsChange>::empty());
    }
}

} // verus!
