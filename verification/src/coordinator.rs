//! The session registry: it tracks capture sessions by source identifier,
//! exposes start/stop/pause/resume, owns the consumer end of the shared
//! frame channel, and drains the channel in bounded batches into the
//! per-source mailboxes. Starting a session for an identifier that already
//! has one replaces the old session; stopping removes the registry entry at
//! once, while the worker behind it winds down on its own.

use vstd::prelude::*;
use std::collections::VecDeque;
use crate::frame::{CapturedFrame, CapturedFrameModel, PreviewId};
use crate::preview::{
    apply_frame, has_preview, lemma_preview_ix, preview_after_frame, preview_ix, unique_ids,
    PreviewManager, PreviewModel,
};
use crate::throttle::{
    gate_accepts, gate_after, gate_wf, interval_for_rate, GateModel, ThrottleGate,
};

verus! {

/// Mathematical state of one capture session.
pub ghost struct SessionModel {
    pub preview_id: u64,
    pub hwnd: isize,
    pub window_title: Seq<char>,
    pub target_fps: u32,
    pub active: bool,
    pub paused: bool,
    pub gate: GateModel,
}

/// The session a `start` call registers: running, not paused, with a fresh
/// throttle gate for the requested rate.
pub open spec fn fresh_session(
    preview_id: u64,
    hwnd: isize,
    window_title: Seq<char>,
    target_fps: u32,
) -> SessionModel {
    SessionModel {
        preview_id,
        hwnd,
        window_title,
        target_fps,
        active: true,
        paused: false,
        gate: GateModel {
            interval_us: interval_for_rate(target_fps),
            last_us: None,
            accepts: Seq::empty(),
        },
    }
}

/// What a session decides for one upstream frame callback.
#[derive(Clone, Copy, Debug, PartialEq, Eq, Structural)]
pub enum FrameDecision {
    /// The session is over; the underlying capture engine must stop.
    Stop,
    /// The frame is discarded before any copy is made.
    Skip,
    /// The frame is accepted and goes out on the shared channel.
    Forward,
}

/// The decision a session takes for a callback at `now_us`: a stopped
/// session ends its worker; a paused session discards the frame with no rate
/// accounting; otherwise the throttle gate decides.
pub open spec fn session_decision(s: SessionModel, now_us: u64) -> FrameDecision {
    if !s.active {
        FrameDecision::Stop
    } else if s.paused {
        FrameDecision::Skip
    } else if gate_accepts(s.gate, now_us) {
        FrameDecision::Forward
    } else {
        FrameDecision::Skip
    }
}

/// The session after a callback at `now_us`: only a forwarded frame moves
/// the throttle's reference point.
pub open spec fn session_step(s: SessionModel, now_us: u64) -> SessionModel {
    if session_decision(s, now_us) is Forward {
        SessionModel { gate: gate_after(s.gate, now_us), ..s }
    } else {
        s
    }
}

/// One capture session: the registry-side record of a worker.
pub struct CaptureSession {
    preview_id: PreviewId,
    hwnd: isize,
    window_title: String,
    target_fps: u32,
    active: bool,
    paused: bool,
    gate: ThrottleGate,
}

impl View for CaptureSession {
    type V = SessionModel;

    closed spec fn view(&self) -> SessionModel {
        SessionModel {
            preview_id: self.preview_id.0,
            hwnd: self.hwnd,
            window_title: self.window_title@,
            target_fps: self.target_fps,
            active: self.active,
            paused: self.paused,
            gate: self.gate@,
        }
    }
}

impl CaptureSession {
    /// Judge one upstream frame callback against this session's flags and
    /// throttle gate.
    fn on_frame(&mut self, now_us: u64) -> (decision: FrameDecision)
        requires
            gate_wf(old(self)@.gate),
        ensures
            gate_wf(final(self)@.gate),
            decision == session_decision(old(self)@, now_us),
            final(self)@ == session_step(old(self)@, now_us),
    {
        if !self.active {
            return FrameDecision::Stop;
        }
        if self.paused {
            return FrameDecision::Skip;
        }
        if self.gate.observe(now_us) {
            FrameDecision::Forward
        } else {
            FrameDecision::Skip
        }
    }
}

/// No two sessions watch the same source.
pub open spec fn unique_session_ids(s: Seq<SessionModel>) -> bool {
    forall|i: int, j: int| 0 <= i < j < s.len() ==> s[i].preview_id != s[j].preview_id
}

/// Some session is registered for the identifier.
pub open spec fn has_session(s: Seq<SessionModel>, id: u64) -> bool {
    exists|i: int| 0 <= i < s.len() && s[i].preview_id == id
}

/// The position of the session registered for the identifier; meaningful
/// when `has_session` holds and identifiers are unique.
pub open spec fn session_ix(s: Seq<SessionModel>, id: u64) -> int {
    choose|i: int| 0 <= i < s.len() && s[i].preview_id == id
}

/// With unique identifiers, a session's position is the one `session_ix`
/// names.
pub proof fn lemma_session_ix(s: Seq<SessionModel>, id: u64, k: int)
    requires
        unique_session_ids(s),
        0 <= k < s.len(),
        s[k].preview_id == id,
    ensures
        has_session(s, id),
        session_ix(s, id) == k,
{
    assert(has_session(s, id));
    let c = session_ix(s, id);
    assert(0 <= c < s.len() && s[c].preview_id == id);
    if c < k {
        assert(s[c].preview_id != s[k].preview_id);
    } else if k < c {
        assert(s[k].preview_id != s[c].preview_id);
    }
}

/// The registry's sessions after a stop: the entry for the identifier is
/// gone; nothing else moves.
pub open spec fn stop_model(s: Seq<SessionModel>, id: u64) -> Seq<SessionModel> {
    if has_session(s, id) {
        s.remove(session_ix(s, id))
    } else {
        s
    }
}

/// The registry's sessions after a start: whatever session was registered
/// for the identifier is stopped first, then the new session is registered.
pub open spec fn start_model(s: Seq<SessionModel>, m: SessionModel) -> Seq<SessionModel> {
    stop_model(s, m.preview_id).push(m)
}

/// Manages all window capture sessions and the shared frame channel.
pub struct CaptureCoordinator {
    sessions: Vec<CaptureSession>,
    channel: VecDeque<CapturedFrame>,
}

impl CaptureCoordinator {
    /// The registered sessions, in registry order.
    pub closed spec fn sessions_view(&self) -> Seq<SessionModel> {
        self.sessions@.map_values(|s: CaptureSession| s@)
    }

    /// The frames waiting on the shared channel, oldest first.
    pub closed spec fn channel_view(&self) -> Seq<CapturedFrameModel> {
        self.channel@.map_values(|f: CapturedFrame| f@)
    }

    /// Registry invariant: one session per source, every gate well formed,
    /// every registered session running.
    pub open spec fn wf(&self) -> bool {
        &&& unique_session_ids(self.sessions_view())
        &&& forall|i: int|
            0 <= i < self.sessions_view().len() ==> gate_wf(
                (#[trigger] self.sessions_view()[i]).gate,
            )
        &&& forall|i: int|
            0 <= i < self.sessions_view().len() ==> (#[trigger] self.sessions_view()[i]).active
    }

    pub fn new() -> (coordinator: CaptureCoordinator)
        ensures
            coordinator.wf(),
            coordinator.sessions_view() == Seq::<SessionModel>::empty(),
            coordinator.channel_view() == Seq::<CapturedFrameModel>::empty(),
    {
        let coordinator = CaptureCoordinator { sessions: Vec::new(), channel: VecDeque::new() };
        proof {
            assert(coordinator.sessions_view() =~= Seq::<SessionModel>::empty());
            assert(coordinator.channel_view() =~= Seq::<CapturedFrameModel>::empty());
        }
        coordinator
    }

    /// Position of the session for this identifier in the backing store.
    fn find_index(&self, id: u64) -> (found: Option<usize>)
        ensures
            match found {
                Some(k) => k < self.sessions_view().len() && self.sessions_view()[k as int].preview_id
                    == id,
                None => !has_session(self.sessions_view(), id),
            },
    {
        let n = self.sessions.len();
        let mut k: usize = 0;
        while k < n
            invariant
                k <= n,
                n == self.sessions_view().len(),
                n == self.sessions@.len(),
                forall|j: int| 0 <= j < k ==> self.sessions_view()[j].preview_id != id,
            decreases n - k,
        {
            if self.sessions[k].preview_id.0 == id {
                assert(self.sessions_view()[k as int].preview_id == id);
                return Some(k);
            }
            assert(self.sessions_view()[k as int].preview_id != id);
            k = k + 1;
        }
        None
    }

    /// Stop capturing for a preview: the registry entry is removed at once
    /// and the worker is signalled; the worker's exit is asynchronous, so it
    /// may still run for a moment after this returns. Returns whether a
    /// session was registered.
    pub fn stop_capture(&mut self, preview_id: PreviewId) -> (stopped: bool)
        requires
            old(self).wf(),
        ensures
            final(self).wf(),
            final(self).channel_view() == old(self).channel_view(),
            stopped == has_session(old(self).sessions_view(), preview_id.0),
            final(self).sessions_view() == stop_model(old(self).sessions_view(), preview_id.0),
            !has_session(final(self).sessions_view(), preview_id.0),
    {
        let ghost before = self.sessions_view();
        match self.find_index(preview_id.0) {
            Some(k) => {
                proof {
                    lemma_session_ix(before, preview_id.0, k as int);
                }
                let mut session = self.sessions.remove(k);
                session.active = false;
                proof {
                    assert(self.sessions_view() =~= before.remove(k as int));
                    assert forall|i: int|
                        0 <= i < self.sessions_view().len() implies self.sessions_view()[i].preview_id
                        != preview_id.0 by {
                        if i < k {
                            assert(self.sessions_view()[i] == before[i]);
                        } else {
                            assert(self.sessions_view()[i] == before[i + 1]);
                        }
                    }
                }
                true
            },
            None => false,
        }
    }

    /// Start capturing a window for a preview at a target rate; an existing
    /// session for the same preview is stopped first, so that at most one
    /// session per source is ever registered.
    pub fn start_capture(
        &mut self,
        preview_id: PreviewId,
        hwnd: isize,
        window_title: String,
        target_fps: u32,
    )
        requires
            old(self).wf(),
            target_fps >= 1,
        ensures
            final(self).wf(),
            final(self).channel_view() == old(self).channel_view(),
            final(self).sessions_view() == start_model(
                old(self).sessions_view(),
                fresh_session(preview_id.0, hwnd, window_title@, target_fps),
            ),
            has_session(final(self).sessions_view(), preview_id.0),
    {
        self.stop_capture(preview_id);
        let ghost removed = self.sessions_view();
        let session = CaptureSession {
            preview_id,
            hwnd,
            window_title,
            target_fps,
            active: true,
            paused: false,
            gate: ThrottleGate::new(target_fps),
        };
        self.sessions.push(session);
        proof {
            assert(self.sessions_view() =~= removed.push(session@));
            let after = self.sessions_view();
            assert(after[after.len() - 1].preview_id == preview_id.0);
            assert forall|i: int, j: int|
                0 <= i < j < after.len() implies after[i].preview_id != after[j].preview_id by {
                if j < after.len() - 1 {
                    assert(after[i] == removed[i] && after[j] == removed[j]);
                } else {
                    assert(after[i] == removed[i]);
                    assert(removed[i].preview_id != preview_id.0);
                }
            }
        }
    }

    /// Stop every registered session, as at shutdown or when the whole
    /// source set is discarded.
    pub fn stop_all(&mut self)
        requires
            old(self).wf(),
        ensures
            final(self).wf(),
            final(self).channel_view() == old(self).channel_view(),
            final(self).sessions_view() == Seq::<SessionModel>::empty(),
    {
        self.sessions.clear();
        proof {
            assert(self.sessions_view() =~= Seq::<SessionModel>::empty());
        }
    }

    /// Pause a session, as when its source scrolls out of the viewport: the
    /// worker keeps running, but frames stop being forwarded. No-op when the
    /// identifier is unknown.
    pub fn pause_capture(&mut self, preview_id: PreviewId) -> (known: bool)
        requires
            old(self).wf(),
        ensures
            final(self).wf(),
            final(self).channel_view() == old(self).channel_view(),
            known == has_session(old(self).sessions_view(), preview_id.0),
            has_session(old(self).sessions_view(), preview_id.0) ==> {
                let ix = session_ix(old(self).sessions_view(), preview_id.0);
                final(self).sessions_view() == old(self).sessions_view().update(
                    ix,
                    SessionModel { paused: true, ..old(self).sessions_view()[ix] },
                )
            },
            !has_session(old(self).sessions_view(), preview_id.0) ==> final(self).sessions_view()
                == old(self).sessions_view(),
    {
        self.set_paused(preview_id, true)
    }

    /// Resume a paused session; the next qualifying frame goes through
    /// again. No-op when the identifier is unknown.
    pub fn resume_capture(&mut self, preview_id: PreviewId) -> (known: bool)
        requires
            old(self).wf(),
        ensures
            final(self).wf(),
            final(self).channel_view() == old(self).channel_view(),
            known == has_session(old(self).sessions_view(), preview_id.0),
            has_session(old(self).sessions_view(), preview_id.0) ==> {
                let ix = session_ix(old(self).sessions_view(), preview_id.0);
                final(self).sessions_view() == old(self).sessions_view().update(
                    ix,
                    SessionModel { paused: false, ..old(self).sessions_view()[ix] },
                )
            },
            !has_session(old(self).sessions_view(), preview_id.0) ==> final(self).sessions_view()
                == old(self).sessions_view(),
    {
        self.set_paused(preview_id, false)
    }

    /// Flip one session's pause flag.
    fn set_paused(&mut self, preview_id: PreviewId, paused: bool) -> (known: bool)
        requires
            old(self).wf(),
        ensures
            final(self).wf(),
            final(self).channel_view() == old(self).channel_view(),
            known == has_session(old(self).sessions_view(), preview_id.0),
            has_session(old(self).sessions_view(), preview_id.0) ==> {
                let ix = session_ix(old(self).sessions_view(), preview_id.0);
                final(self).sessions_view() == old(self).sessions_view().update(
                    ix,
                    SessionModel { paused: paused, ..old(self).sessions_view()[ix] },
                )
            },
            !has_session(old(self).sessions_view(), preview_id.0) ==> final(self).sessions_view()
                == old(self).sessions_view(),
    {
        let ghost before = self.sessions_view();
        match self.find_index(preview_id.0) {
            Some(k) => {
                proof {
                    lemma_session_ix(before, preview_id.0, k as int);
                }
                let mut session = self.sessions.remove(k);
                session.paused = paused;
                self.sessions.insert(k, session);
                proof {
                    assert(self.sessions_view() =~= before.update(
                        k as int,
                        SessionModel { paused: paused, ..before[k as int] },
                    ));
                    assert(forall|i: int|
                        0 <= i < self.sessions_view().len() ==> (#[trigger] self.sessions_view()[i]).preview_id
                            == before[i].preview_id);
                }
                true
            },
            None => false,
        }
    }

    /// Whether a preview has an active capture session.
    pub fn is_capturing(&self, preview_id: PreviewId) -> (capturing: bool)
        requires
            self.wf(),
        ensures
            capturing == has_session(self.sessions_view(), preview_id.0),
    {
        match self.find_index(preview_id.0) {
            Some(k) => {
                proof {
                    lemma_session_ix(self.sessions_view(), preview_id.0, k as int);
                }
                self.sessions[k].active
            },
            None => false,
        }
    }

    /// Whether a preview's capture is paused.
    pub fn is_paused(&self, preview_id: PreviewId) -> (paused: bool)
        requires
            self.wf(),
        ensures
            paused == (has_session(self.sessions_view(), preview_id.0)
                && self.sessions_view()[session_ix(self.sessions_view(), preview_id.0)].paused),
    {
        match self.find_index(preview_id.0) {
            Some(k) => {
                proof {
                    lemma_session_ix(self.sessions_view(), preview_id.0, k as int);
                }
                self.sessions[k].paused
            },
            None => false,
        }
    }

    /// Record a new target rate for a session. The change takes effect when
    /// the session is next restarted; the running worker keeps its gate.
    /// No-op when the identifier is unknown.
    pub fn set_target_fps(&mut self, preview_id: PreviewId, fps: u32) -> (known: bool)
        requires
            old(self).wf(),
        ensures
            final(self).wf(),
            final(self).channel_view() == old(self).channel_view(),
            known == has_session(old(self).sessions_view(), preview_id.0),
            has_session(old(self).sessions_view(), preview_id.0) ==> {
                let ix = session_ix(old(self).sessions_view(), preview_id.0);
                final(self).sessions_view() == old(self).sessions_view().update(
                    ix,
                    SessionModel { target_fps: fps, ..old(self).sessions_view()[ix] },
                )
            },
            !has_session(old(self).sessions_view(), preview_id.0) ==> final(self).sessions_view()
                == old(self).sessions_view(),
    {
        let ghost before = self.sessions_view();
        match self.find_index(preview_id.0) {
            Some(k) => {
                proof {
                    lemma_session_ix(before, preview_id.0, k as int);
                }
                let mut session = self.sessions.remove(k);
                session.target_fps = fps;
                self.sessions.insert(k, session);
                proof {
                    assert(self.sessions_view() =~= before.update(
                        k as int,
                        SessionModel { target_fps: fps, ..before[k as int] },
                    ));
                    assert(forall|i: int|
                        0 <= i < self.sessions_view().len() ==> (#[trigger] self.sessions_view()[i]).preview_id
                            == before[i].preview_id);
                }
                true
            },
            None => false,
        }
    }

    /// How many sessions are registered.
    pub fn session_count(&self) -> (n: usize)
        ensures
            n == self.sessions_view().len(),
    {
        self.sessions.len()
    }

    /// How many frames wait on the shared channel.
    pub fn pending_frames(&self) -> (n: usize)
        ensures
            n == self.channel_view().len(),
    {
        self.channel.len()
    }

    /// The title a registered session is capturing, if any.
    pub fn session_title(&self, preview_id: PreviewId) -> (title: Option<String>)
        requires
            self.wf(),
        ensures
            match title {
                Some(t) => has_session(self.sessions_view(), preview_id.0) && t@
                    == self.sessions_view()[session_ix(self.sessions_view(), preview_id.0)].window_title,
                None => !has_session(self.sessions_view(), preview_id.0),
            },
    {
        match self.find_index(preview_id.0) {
            Some(k) => {
                proof {
                    lemma_session_ix(self.sessions_view(), preview_id.0, k as int);
                }
                Some(self.sessions[k].window_title.clone())
            },
            None => None,
        }
    }

    /// The target rate of a registered session, if any.
    pub fn session_fps(&self, preview_id: PreviewId) -> (fps: Option<u32>)
        requires
            self.wf(),
        ensures
            match fps {
                Some(f) => has_session(self.sessions_view(), preview_id.0) && f
                    == self.sessions_view()[session_ix(self.sessions_view(), preview_id.0)].target_fps,
                None => !has_session(self.sessions_view(), preview_id.0),
            },
    {
        match self.find_index(preview_id.0) {
            Some(k) => {
                proof {
                    lemma_session_ix(self.sessions_view(), preview_id.0, k as int);
                }
                Some(self.sessions[k].target_fps)
            },
            None => None,
        }
    }

    /// The producer half of the shared channel: enqueue one frame a worker
    /// accepted. The channel never pushes back; the drain's bound alone
    /// limits work per tick.
    pub fn submit_frame(&mut self, frame: CapturedFrame)
        ensures
            final(self).sessions_view() == old(self).sessions_view(),
            final(self).channel_view() == old(self).channel_view().push(frame@),
    {
        let ghost before = self.channel_view();
        let ghost fm = frame@;
        self.channel.push_back(frame);
        proof {
            assert(self.channel_view() =~= before.push(fm));
        }
    }

    /// One upstream frame callback for a session, judged and, when accepted,
    /// forwarded on the shared channel. A callback for an identifier with no
    /// registered session tells the worker to stop: its session was removed.
    pub fn on_frame_arrived(
        &mut self,
        preview_id: PreviewId,
        now_us: u64,
        width: u32,
        height: u32,
        data: Vec<u8>,
    ) -> (decision: FrameDecision)
        requires
            old(self).wf(),
        ensures
            final(self).wf(),
            decision == frame_decision_model(old(self).sessions_view(), preview_id.0, now_us),
            final(self).sessions_view() == frame_sessions_model(
                old(self).sessions_view(),
                preview_id.0,
                now_us,
            ),
            final(self).channel_view() == if decision is Forward {
                old(self).channel_view().push(
                    CapturedFrameModel { preview_id: preview_id.0, width, height, data: data@ },
                )
            } else {
                old(self).channel_view()
            },
    {
        let ghost before = self.sessions_view();
        match self.find_index(preview_id.0) {
            Some(k) => {
                proof {
                    lemma_session_ix(before, preview_id.0, k as int);
                }
                let mut session = self.sessions.remove(k);
                let decision = session.on_frame(now_us);
                self.sessions.insert(k, session);
                proof {
                    assert(self.sessions_view() =~= before.update(
                        k as int,
                        session_step(before[k as int], now_us),
                    ));
                    assert(forall|i: int|
                        0 <= i < self.sessions_view().len() ==> (
                        #[trigger] self.sessions_view()[i]).preview_id == before[i].preview_id);
                    if !(session_decision(before[k as int], now_us) is Forward) {
                        assert(self.sessions_view() =~= before);
                    }
                }
                match decision {
                    FrameDecision::Forward => {
                        self.submit_frame(
                            CapturedFrame { preview_id, width, height, data },
                        );
                        FrameDecision::Forward
                    },
                    other => other,
                }
            },
            None => FrameDecision::Stop,
        }
    }

    /// Drain up to `max` frames from the shared channel, oldest first, each
    /// overwriting the mailbox of the preview it addresses. Non-blocking:
    /// exactly the smaller of `max` and the number of waiting frames is
    /// consumed, and the rest stay queued for the next tick.
    pub fn drain(&mut self, previews: &mut PreviewManager, max: usize) -> (consumed: usize)
        requires
            old(self).wf(),
            old(previews).wf(),
        ensures
            final(self).wf(),
            final(previews).wf(),
            final(self).sessions_view() == old(self).sessions_view(),
            final(previews).spec_next_id() == old(previews).spec_next_id(),
            final(previews).spec_max_z() == old(previews).spec_max_z(),
            consumed == if max <= old(self).channel_view().len() {
                max as int
            } else {
                old(self).channel_view().len() as int
            },
            final(self).channel_view() == old(self).channel_view().skip(consumed as int),
            final(previews)@ == drain_model(
                old(previews)@,
                old(self).channel_view().take(consumed as int),
            ),
    {
        let ghost all = self.channel_view();
        let ghost orig_prevs = previews@;
        let ghost total = if max <= all.len() {
            max as int
        } else {
            all.len() as int
        };
        let mut consumed: usize = 0;
        proof {
            assert(self.channel_view() =~= all.skip(0));
            assert(all.subrange(0, total) =~= all.take(total));
            assert(drain_model(orig_prevs, all.subrange(0, total)) == drain_model(
                previews@,
                all.subrange(0, total),
            ));
        }
        loop
            invariant
                self.wf(),
                previews.wf(),
                consumed <= total,
                consumed <= max,
                total == if max <= all.len() {
                    max as int
                } else {
                    all.len() as int
                },
                self.sessions_view() == old(self).sessions_view(),
                previews.spec_next_id() == old(previews).spec_next_id(),
                previews.spec_max_z() == old(previews).spec_max_z(),
                self.channel_view() == all.skip(consumed as int),
                drain_model(orig_prevs, all.take(total)) == drain_model(
                    previews@,
                    all.subrange(consumed as int, total),
                ),
            ensures
                consumed == total,
            decreases max - consumed,
        {
            if consumed == max {
                break ;
            }
            let ghost j = consumed as int;
            let ghost prevs_now = previews@;
            let ghost chan_before = self.channel_view();
            match self.channel.pop_front() {
                Some(frame) => {
                    proof {
                        assert(frame@ == chan_before[0]);
                        assert(chan_before[0] == all[j]);
                        assert forall|i: int|
                            0 <= i < self.channel_view().len() implies self.channel_view()[i]
                            == all.skip(j + 1)[i] by {
                            assert(self.channel_view()[i] == chan_before[i + 1]);
                            assert(chan_before[i + 1] == all.skip(j)[i + 1]);
                            assert(all.skip(j)[i + 1] == all[j + 1 + i]);
                            assert(all.skip(j + 1)[i] == all[j + 1 + i]);
                        }
                        assert(self.channel_view() =~= all.skip(j + 1));
                        assert(j < total);
                    }
                    let CapturedFrame { preview_id, width, height, data } = frame;
                    previews.update_frame(preview_id, width, height, data);
                    proof {
                        let rest = all.subrange(j, total);
                        assert(rest.len() > 0);
                        assert(rest[0] == all[j]);
                        assert(rest.drop_first() =~= all.subrange(j + 1, total));
                        assert(drain_model(prevs_now, rest) == drain_model(
                            apply_frame(prevs_now, all[j]),
                            all.subrange(j + 1, total),
                        ));
                        assert(previews@ == apply_frame(prevs_now, all[j]));
                    }
                    consumed = consumed + 1;
                },
                None => {
                    proof {
                        assert(all.skip(j).len() == 0);
                        assert(total == j);
                    }
                    break ;
                },
            }
        }
        proof {
            assert(consumed == total);
            assert(all.subrange(consumed as int, total).len() == 0);
            assert(all.subrange(consumed as int, total) =~= Seq::<CapturedFrameModel>::empty());
            assert(drain_model(previews@, Seq::<CapturedFrameModel>::empty()) == previews@);
        }
        consumed
    }

    /// Process pending captured frames: one bounded drain, at most ten
    /// frames per tick across all sources, so a tick's work stays bounded
    /// however fast the producers are.
    pub fn process_frames(&mut self, previews: &mut PreviewManager) -> (consumed: usize)
        requires
            old(self).wf(),
            old(previews).wf(),
        ensures
            final(self).wf(),
            final(previews).wf(),
            final(self).sessions_view() == old(self).sessions_view(),
            final(previews).spec_next_id() == old(previews).spec_next_id(),
            final(previews).spec_max_z() == old(previews).spec_max_z(),
            consumed == if 10 <= old(self).channel_view().len() {
                10int
            } else {
                old(self).channel_view().len() as int
            },
            final(self).channel_view() == old(self).channel_view().skip(consumed as int),
            final(previews)@ == drain_model(
                old(previews)@,
                old(self).channel_view().take(consumed as int),
            ),
    {
        self.drain(previews, 10)
    }
}

/// Which decision a frame callback for `id` at `now_us` gets from the
/// registry: a worker whose session is gone must stop; otherwise its
/// session decides.
pub open spec fn frame_decision_model(s: Seq<SessionModel>, id: u64, now_us: u64) -> FrameDecision {
    if !has_session(s, id) {
        FrameDecision::Stop
    } else {
        session_decision(s[session_ix(s, id)], now_us)
    }
}

/// The registry's sessions after a frame callback: only a forwarded frame
/// moves its session's gate.
pub open spec fn frame_sessions_model(s: Seq<SessionModel>, id: u64, now_us: u64) -> Seq<
    SessionModel,
> {
    if has_session(s, id) && frame_decision_model(s, id, now_us) is Forward {
        s.update(session_ix(s, id), session_step(s[session_ix(s, id)], now_us))
    } else {
        s
    }
}

/// The previews after a bounded drain routed a batch of frames, oldest
/// first: each frame overwrites the mailbox of the preview it addresses.
pub open spec fn drain_model(
    prevs: Seq<PreviewModel>,
    frames: Seq<CapturedFrameModel>,
) -> Seq<PreviewModel>
    decreases frames.len(),
{
    if frames.len() == 0 {
        prevs
    } else {
        drain_model(apply_frame(prevs, frames[0]), frames.drop_first())
    }
}

/// Routing a frame changes no preview's identifier and keeps identifiers
/// unique.
pub proof fn lemma_apply_frame_keeps_ids(prevs: Seq<PreviewModel>, f: CapturedFrameModel)
    ensures
        apply_frame(prevs, f).len() == prevs.len(),
        forall|i: int| 0 <= i < prevs.len() ==> (#[trigger] apply_frame(prevs, f)[i]).id
            == prevs[i].id,
        unique_ids(prevs) ==> unique_ids(apply_frame(prevs, f)),
{
    let out = apply_frame(prevs, f);
    assert forall|i: int| 0 <= i < prevs.len() implies (#[trigger] out[i]).id == prevs[i].id by {
        if has_preview(prevs, f.preview_id) {
            let k = preview_ix(prevs, f.preview_id);
            if i == k {
                assert(out[i] == preview_after_frame(prevs[k], f.content()));
            }
        }
    }
}

/// The other half of pause suppression: a bounded drain delivers a frame to
/// a preview's mailbox only when a queued frame addresses that preview. A
/// batch holding nothing for one source leaves that source's preview — its
/// mailbox slot included — exactly as it was.
pub proof fn lemma_drain_skips_unaddressed(
    prevs: Seq<PreviewModel>,
    frames: Seq<CapturedFrameModel>,
    id: u64,
)
    requires
        unique_ids(prevs),
        has_preview(prevs, id),
        forall|i: int| 0 <= i < frames.len() ==> (#[trigger] frames[i]).preview_id != id,
    ensures
        unique_ids(drain_model(prevs, frames)),
        has_preview(drain_model(prevs, frames), id),
        preview_ix(drain_model(prevs, frames), id) == preview_ix(
            prevs,
            id,
        ),
        drain_model(prevs, frames)[preview_ix(prevs, id)] == prevs[
            preview_ix(prevs, id)],
    decreases frames.len(),
{
    let ix = preview_ix(prevs, id);
    assert(0 <= ix < prevs.len() && prevs[ix].id == id);
    if frames.len() > 0 {
        let f = frames[0];
        let stepped = apply_frame(prevs, f);
        lemma_apply_frame_keeps_ids(prevs, f);
        lemma_preview_ix(stepped, id, ix);
        assert(stepped[ix] == prevs[ix]) by {
            if has_preview(prevs, f.preview_id) {
                let k = preview_ix(prevs, f.preview_id);
                assert(prevs[k].id == f.preview_id);
                assert(k != ix);
            }
        }
        assert forall|i: int|
            0 <= i < frames.drop_first().len() implies (#[trigger] frames.drop_first()[i]).preview_id
            != id by {
            assert(frames.drop_first()[i] == frames[i + 1]);
        }
        lemma_drain_skips_unaddressed(stepped, frames.drop_first(), id);
        assert(preview_ix(stepped, id) == ix);
        assert(drain_model(prevs, frames) == drain_model(stepped, frames.drop_first()));
    }
}

/// How many sessions are registered for one source identifier.
pub open spec fn count_sessions_for(s: Seq<SessionModel>, id: u64) -> nat
    decreases s.len(),
{
    if s.len() == 0 {
        0
    } else {
        count_sessions_for(s.drop_last(), id) + if s.last().preview_id == id {
            1nat
        } else {
            0nat
        }
    }
}

/// A registry in which no session carries the identifier counts zero
/// sessions for it.
pub proof fn lemma_count_sessions_zero(s: Seq<SessionModel>, id: u64)
    requires
        forall|i: int| 0 <= i < s.len() ==> (#[trigger] s[i]).preview_id != id,
    ensures
        count_sessions_for(s, id) == 0,
    decreases s.len(),
{
    if s.len() > 0 {
        lemma_count_sessions_zero(s.drop_last(), id);
    }
}

/// Stopping removes every trace of the identifier and keeps the registry's
/// other sessions, in order, with identifiers still unique.
pub proof fn lemma_stop_model_removes(s: Seq<SessionModel>, id: u64)
    requires
        unique_session_ids(s),
    ensures
        unique_session_ids(stop_model(s, id)),
        !has_session(stop_model(s, id), id),
        forall|i: int| 0 <= i < stop_model(s, id).len() ==> s.contains(#[trigger] stop_model(s, id)[i]),
{
    let r = stop_model(s, id);
    if has_session(s, id) {
        let k = session_ix(s, id);
        assert(0 <= k < s.len() && s[k].preview_id == id);
        assert forall|i: int| 0 <= i < r.len() implies s.contains(#[trigger] r[i]) by {
            if i < k {
                assert(r[i] == s[i]);
            } else {
                assert(r[i] == s[i + 1]);
            }
        }
        assert forall|i: int, j: int|
            0 <= i < j < r.len() implies r[i].preview_id != r[j].preview_id by {
            let si = if i < k {
                i
            } else {
                i + 1
            };
            let sj = if j < k {
                j
            } else {
                j + 1
            };
            assert(r[i] == s[si] && r[j] == s[sj]);
        }
        assert forall|i: int| 0 <= i < r.len() implies (#[trigger] r[i]).preview_id != id by {
            let si = if i < k {
                i
            } else {
                i + 1
            };
            assert(r[i] == s[si]);
            if si < k {
                assert(s[si].preview_id != s[k].preview_id);
            } else {
                assert(s[k].preview_id != s[si].preview_id);
            }
        }
    } else {
        assert forall|i: int| 0 <= i < r.len() implies s.contains(#[trigger] r[i]) by {
            assert(r[i] == s[i]);
        }
    }
}

/// Law of session registration: a registry with unique identifiers ends any
/// `start` with exactly one session registered for that source.
pub proof fn lemma_start_exactly_one(s: Seq<SessionModel>, m: SessionModel)
    requires
        unique_session_ids(s),
    ensures
        unique_session_ids(start_model(s, m)),
        count_sessions_for(start_model(s, m), m.preview_id) == 1,
{
    let id = m.preview_id;
    lemma_stop_model_removes(s, id);
    let r = stop_model(s, id);
    assert forall|i: int| 0 <= i < r.len() implies (#[trigger] r[i]).preview_id != id by {
        if r[i].preview_id == id {
            assert(has_session(r, id));
        }
    }
    lemma_count_sessions_zero(r, id);
    let out = start_model(s, m);
    assert(out.drop_last() =~= r);
    assert(out.last() == m);
    assert(count_sessions_for(out, id) == count_sessions_for(r, id) + 1);
    assert forall|i: int, j: int|
        0 <= i < j < out.len() implies out[i].preview_id != out[j].preview_id by {
        if j < out.len() - 1 {
            assert(out[i] == r[i] && out[j] == r[j]);
        } else {
            assert(out[i] == r[i]);
        }
    }
}

/// Law of session replacement: two starts for the same source are one start
/// with the later session; the earlier session leaves no trace.
pub proof fn lemma_start_replaces(s: Seq<SessionModel>, a: SessionModel, b: SessionModel)
    requires
        unique_session_ids(s),
        a.preview_id == b.preview_id,
    ensures
        start_model(start_model(s, a), b) == start_model(s, b),
{
    let id = a.preview_id;
    lemma_stop_model_removes(s, id);
    let r = stop_model(s, id);
    let mid = start_model(s, a);
    assert(mid == r.push(a));
    assert forall|i: int| 0 <= i < r.len() implies (#[trigger] r[i]).preview_id != id by {
        if r[i].preview_id == id {
            assert(has_session(r, id));
        }
    }
    assert forall|i: int, j: int|
        0 <= i < j < mid.len() implies mid[i].preview_id != mid[j].preview_id by {
        if j < mid.len() - 1 {
            assert(mid[i] == r[i] && mid[j] == r[j]);
        } else {
            assert(mid[i] == r[i]);
        }
    }
    lemma_session_ix(mid, id, mid.len() - 1);
    assert(stop_model(mid, id) =~= r);
    assert(start_model(mid, b) == r.push(b));
    assert(start_model(s, b) == r.push(b));
}

/// While a session is paused, an upstream callback forwards nothing: the
/// frame is discarded, the registry and every gate stay as they are, and the
/// channel — and so every mailbox — receives nothing from it.
pub proof fn lemma_paused_forwards_nothing(s: Seq<SessionModel>, id: u64, now_us: u64)
    requires
        has_session(s, id),
        s[session_ix(s, id)].paused,
    ensures
        !(frame_decision_model(s, id, now_us) is Forward),
        s[session_ix(s, id)].active ==> frame_decision_model(s, id, now_us) is Skip,
        frame_sessions_model(s, id, now_us) == s,
{
}

/// Resuming lets the next qualifying frame through: once the pause flag is
/// cleared, a callback that passes the throttle gate of a running session is
/// forwarded.
pub proof fn lemma_resume_allows(s: Seq<SessionModel>, id: u64, now_us: u64)
    requires
        unique_session_ids(s),
        has_session(s, id),
        s[session_ix(s, id)].active,
        gate_accepts(s[session_ix(s, id)].gate, now_us),
    ensures
        ({
            let ix = session_ix(s, id);
            let resumed = s.update(ix, SessionModel { paused: false, ..s[ix] });
            frame_decision_model(resumed, id, now_us) is Forward
        }),
{
    let ix = session_ix(s, id);
    let resumed = s.update(ix, SessionModel { paused: false, ..s[ix] });
    lemma_session_ix(resumed, id, ix);
}

} // verus!
