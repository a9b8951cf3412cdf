//! Per-source preview records and their registry. Each preview keeps the
//! capture metadata for one observed source together with its frame mailbox;
//! the registry tracks previews by identifier, handing out fresh identifiers
//! from a monotonic counter.

use vstd::prelude::*;
use crate::frame::{CapturedFrameModel, FpsPreset, FrameData, FrameModel, PreviewId, WindowHandle};
use crate::mailbox::FrameMailbox;

verus! {

/// Mathematical state of one preview.
pub ghost struct PreviewModel {
    pub id: u64,
    pub window_handle: Option<WindowHandle>,
    pub title: Seq<char>,
    pub capture_active: bool,
    pub capture_paused: bool,
    pub lock_aspect_ratio: bool,
    pub z_order: u32,
    pub target_fps: u32,
    pub fps_preset: FpsPreset,
    pub frame_size: Option<(u32, u32)>,
    pub slot: Option<FrameModel>,
}

/// The preview a fresh record starts as.
pub open spec fn fresh_preview(id: u64, title: Seq<char>, handle: Option<WindowHandle>, z_order: u32) -> PreviewModel {
    PreviewModel {
        id: id,
        window_handle: handle,
        title: title,
        capture_active: false,
        capture_paused: false,
        lock_aspect_ratio: true,
        z_order: z_order,
        target_fps: 30,
        fps_preset: FpsPreset::Medium,
        frame_size: None,
        slot: None,
    }
}

/// A preview after an accepted frame arrived: the frame sits in the slot,
/// superseding whatever was there, and nonempty dimensions are remembered.
pub open spec fn preview_after_frame(p: PreviewModel, f: FrameModel) -> PreviewModel {
    PreviewModel {
        frame_size: if f.width > 0 && f.height > 0 {
            Some((f.width, f.height))
        } else {
            p.frame_size
        },
        slot: Some(f),
        ..p
    }
}

/// One live preview: the capture metadata of an observed source and the
/// mailbox its frames are handed over in.
pub struct Preview {
    /// Unique ID.
    pub id: PreviewId,
    /// Window being captured, when one was picked.
    pub window_handle: Option<WindowHandle>,
    /// Display title, cached from the window.
    pub title: String,
    /// Is capture currently active?
    pub capture_active: bool,
    /// Is capture paused, e.g. for viewport culling?
    pub capture_paused: bool,
    /// Lock aspect ratio when resizing?
    pub lock_aspect_ratio: bool,
    /// Z-order; higher means on top.
    pub z_order: u32,
    /// Target rate for capture, in frames per second.
    pub target_fps: u32,
    /// The preset the target rate came from.
    pub fps_preset: FpsPreset,
    /// Dimensions of the last frame whose dimensions were nonempty.
    pub frame_size: Option<(u32, u32)>,
    pub(crate) mailbox: FrameMailbox,
}

impl View for Preview {
    type V = PreviewModel;

    closed spec fn view(&self) -> PreviewModel {
        PreviewModel {
            id: self.id.0,
            window_handle: self.window_handle,
            title: self.title@,
            capture_active: self.capture_active,
            capture_paused: self.capture_paused,
            lock_aspect_ratio: self.lock_aspect_ratio,
            z_order: self.z_order,
            target_fps: self.target_fps,
            fps_preset: self.fps_preset,
            frame_size: self.frame_size,
            slot: self.mailbox@,
        }
    }
}

impl Preview {
    /// Create a new preview with no window attached.
    pub fn new(id: PreviewId, title: String) -> (preview: Preview)
        ensures
            preview@ == fresh_preview(id.0, title@, None::<WindowHandle>, 0),
    {
        Preview {
            id: id,
            window_handle: None,
            title: title,
            capture_active: false,
            capture_paused: false,
            lock_aspect_ratio: true,
            z_order: 0,
            target_fps: 30,
            fps_preset: FpsPreset::Medium,
            frame_size: None,
            mailbox: FrameMailbox::new(),
        }
    }

    /// Create a preview for a specific window.
    pub fn for_window(
        id: PreviewId,
        hwnd: isize,
        process_id: u32,
        title: String,
    ) -> (preview: Preview)
        ensures
            preview@ == fresh_preview(
                id.0,
                title@,
                Some(WindowHandle { hwnd, process_id }),
                0,
            ),
    {
        let mut preview = Preview::new(id, title);
        preview.window_handle = Some(WindowHandle { hwnd, process_id });
        preview
    }

    /// Set the rate preset; the target rate follows it.
    pub fn set_fps_preset(&mut self, preset: FpsPreset)
        ensures
            final(self)@ == (PreviewModel {
                fps_preset: preset,
                target_fps: preset.spec_rate(),
                ..old(self)@
            }),
    {
        self.fps_preset = preset;
        self.target_fps = preset.as_u32();
    }

    /// Hand a drained frame to this preview: it overwrites the mailbox slot,
    /// and nonempty dimensions become the remembered frame size.
    pub fn update_frame(&mut self, width: u32, height: u32, data: Vec<u8>)
        ensures
            final(self)@ == preview_after_frame(
                old(self)@,
                FrameModel { width, height, data: data@ },
            ),
    {
        if width > 0 && height > 0 {
            self.frame_size = Some((width, height));
        }
        self.mailbox.put(FrameData { width, height, data });
    }

    /// The renderer's pull: remove and return the pending frame, if any.
    pub fn take_frame(&mut self) -> (taken: Option<FrameData>)
        ensures
            final(self)@ == (PreviewModel { slot: None::<FrameModel>, ..old(self)@ }),
            match taken {
                Some(frame) => old(self)@.slot == Some(frame@),
                None => old(self)@.slot is None,
            },
    {
        self.mailbox.take()
    }

    /// Whether a frame is waiting to be taken.
    pub fn has_pending_frame(&self) -> (pending: bool)
        ensures
            pending == (self@.slot is Some),
    {
        self.mailbox.has_pending()
    }

    /// The target rate currently configured.
    pub fn rate(&self) -> (rate: u32)
        ensures
            rate == self@.target_fps,
    {
        self.target_fps
    }

    /// The attached window handle, if any.
    pub fn handle(&self) -> (handle: Option<WindowHandle>)
        ensures
            handle == self@.window_handle,
    {
        self.window_handle
    }

    /// A copy of the display title.
    pub fn title_string(&self) -> (title: String)
        ensures
            title@ == self@.title,
    {
        self.title.clone()
    }
}

/// No two previews share an identifier.
pub open spec fn unique_ids(s: Seq<PreviewModel>) -> bool {
    forall|i: int, j: int| 0 <= i < j < s.len() ==> s[i].id != s[j].id
}

/// Some preview carries the identifier.
pub open spec fn has_preview(s: Seq<PreviewModel>, id: u64) -> bool {
    exists|i: int| 0 <= i < s.len() && s[i].id == id
}

/// The position of the preview carrying the identifier; meaningful when
/// `has_preview` holds and identifiers are unique.
pub open spec fn preview_ix(s: Seq<PreviewModel>, id: u64) -> int {
    choose|i: int| 0 <= i < s.len() && s[i].id == id
}

/// With unique identifiers, an entry's position is the one `preview_ix`
/// names.
pub proof fn lemma_preview_ix(s: Seq<PreviewModel>, id: u64, k: int)
    requires
        unique_ids(s),
        0 <= k < s.len(),
        s[k].id == id,
    ensures
        has_preview(s, id),
        preview_ix(s, id) == k,
{
    assert(has_preview(s, id));
    let c = preview_ix(s, id);
    assert(0 <= c < s.len() && s[c].id == id);
    if c < k {
        assert(s[c].id != s[k].id);
    } else if k < c {
        assert(s[k].id != s[c].id);
    }
}

/// The registry after a drained frame was routed: the frame lands in the
/// slot of the preview it addresses, and is dropped when no preview carries
/// its identifier.
pub open spec fn apply_frame(s: Seq<PreviewModel>, f: CapturedFrameModel) -> Seq<PreviewModel> {
    if has_preview(s, f.preview_id) {
        s.update(preview_ix(s, f.preview_id), preview_after_frame(s[preview_ix(s, f.preview_id)], f.content()))
    } else {
        s
    }
}

/// Tracks all previews, keyed by their identifier.
pub struct PreviewManager {
    previews: Vec<Preview>,
    next_id: u64,
    max_z_order: u32,
}

impl View for PreviewManager {
    type V = Seq<PreviewModel>;

    closed spec fn view(&self) -> Seq<PreviewModel> {
        self.previews@.map_values(|p: Preview| p@)
    }
}

impl PreviewManager {
    /// The identifier the next added preview will get.
    pub closed spec fn spec_next_id(&self) -> u64 {
        self.next_id
    }

    /// The highest z-order handed out so far.
    pub closed spec fn spec_max_z(&self) -> u32 {
        self.max_z_order
    }

    /// Registry invariant: identifiers are unique and lie below the counter.
    pub open spec fn wf(&self) -> bool {
        &&& unique_ids(self@)
        &&& forall|i: int| 0 <= i < self@.len() ==> (#[trigger] self@[i].id) < self.spec_next_id()
        &&& self.spec_next_id() >= 1
    }

    /// Whether one more preview can be added without exhausting the
    /// identifier counter or the z-order range.
    pub open spec fn can_add(&self) -> bool {
        self.spec_next_id() < u64::MAX && self.spec_max_z() < u32::MAX
    }

    pub fn new() -> (manager: PreviewManager)
        ensures
            manager@ == Seq::<PreviewModel>::empty(),
            manager.wf(),
            manager.can_add(),
            manager.spec_next_id() == 1,
            manager.spec_max_z() == 0,
    {
        PreviewManager { previews: Vec::new(), next_id: 1, max_z_order: 0 }
    }

    /// Position of the preview with this identifier in the backing store.
    fn find_index(&self, id: u64) -> (found: Option<usize>)
        ensures
            match found {
                Some(k) => k < self@.len() && self@[k as int].id == id,
                None => !has_preview(self@, id),
            },
    {
        let n = self.previews.len();
        let mut k: usize = 0;
        while k < n
            invariant
                k <= n,
                n == self@.len(),
                n == self.previews@.len(),
                forall|j: int| 0 <= j < k ==> self@[j].id != id,
            decreases n - k,
        {
            if self.previews[k].id.0 == id {
                assert(self@[k as int].id == id);
                return Some(k);
            }
            assert(self@[k as int].id != id);
            k = k + 1;
        }
        None
    }

    /// Add a new preview; the fresh identifier is returned and the preview
    /// is placed on top of the z-order.
    pub fn add(&mut self, title: String) -> (id: PreviewId)
        requires
            old(self).wf(),
            old(self).can_add(),
        ensures
            final(self).wf(),
            id.0 == old(self).spec_next_id(),
            final(self).spec_next_id() == old(self).spec_next_id() + 1,
            final(self).spec_max_z() == old(self).spec_max_z() + 1,
            final(self)@ == old(self)@.push(
                fresh_preview(id.0, title@, None::<WindowHandle>, (old(self).spec_max_z() + 1) as u32),
            ),
    {
        let id = self.generate_id();
        self.max_z_order = self.max_z_order + 1;
        let mut preview = Preview::new(id, title);
        preview.z_order = self.max_z_order;
        let ghost before = self@;
        self.previews.push(preview);
        proof {
            assert(self@ =~= before.push(preview@));
        }
        id
    }

    /// Add a preview for a specific window.
    pub fn add_for_window(
        &mut self,
        hwnd: isize,
        process_id: u32,
        title: String,
    ) -> (id: PreviewId)
        requires
            old(self).wf(),
            old(self).can_add(),
        ensures
            final(self).wf(),
            id.0 == old(self).spec_next_id(),
            final(self).spec_next_id() == old(self).spec_next_id() + 1,
            final(self).spec_max_z() == old(self).spec_max_z() + 1,
            final(self)@ == old(self)@.push(
                fresh_preview(
                    id.0,
                    title@,
                    Some(WindowHandle { hwnd, process_id }),
                    (old(self).spec_max_z() + 1) as u32,
                ),
            ),
    {
        let id = self.generate_id();
        self.max_z_order = self.max_z_order + 1;
        let mut preview = Preview::for_window(id, hwnd, process_id, title);
        preview.z_order = self.max_z_order;
        let ghost before = self@;
        self.previews.push(preview);
        proof {
            assert(self@ =~= before.push(preview@));
        }
        id
    }

    /// Add a preview with window handle and saved settings, as when a stored
    /// layout is restored.
    pub fn add_with_window(
        &mut self,
        title: String,
        hwnd: isize,
        fps_preset: FpsPreset,
        z_order: u32,
    ) -> (id: PreviewId)
        requires
            old(self).wf(),
            old(self).spec_next_id() < u64::MAX,
        ensures
            final(self).wf(),
            id.0 == old(self).spec_next_id(),
            final(self).spec_next_id() == old(self).spec_next_id() + 1,
            final(self).spec_max_z() == if z_order > old(self).spec_max_z() {
                z_order
            } else {
                old(self).spec_max_z()
            },
            final(self)@ == old(self)@.push(
                PreviewModel {
                    fps_preset: fps_preset,
                    target_fps: fps_preset.spec_rate(),
                    ..fresh_preview(
                        id.0,
                        title@,
                        Some(WindowHandle { hwnd, process_id: 0 }),
                        z_order,
                    )
                },
            ),
    {
        let id = self.generate_id();
        if z_order > self.max_z_order {
            self.max_z_order = z_order;
        }
        let mut preview = Preview::for_window(id, hwnd, 0, title);
        preview.z_order = z_order;
        preview.set_fps_preset(fps_preset);
        let ghost before = self@;
        self.previews.push(preview);
        proof {
            assert(self@ =~= before.push(preview@));
        }
        id
    }

    /// Generate a new unique identifier.
    fn generate_id(&mut self) -> (id: PreviewId)
        requires
            old(self).spec_next_id() < u64::MAX,
        ensures
            id.0 == old(self).spec_next_id(),
            final(self).spec_next_id() == old(self).spec_next_id() + 1,
            final(self)@ == old(self)@,
            final(self).spec_max_z() == old(self).spec_max_z(),
    {
        let id = PreviewId(self.next_id);
        self.next_id = self.next_id + 1;
        id
    }

    /// Remove a preview; no-op when the identifier is unknown.
    pub fn remove(&mut self, id: PreviewId)
        requires
            old(self).wf(),
        ensures
            final(self).wf(),
            final(self).spec_next_id() == old(self).spec_next_id(),
            final(self).spec_max_z() == old(self).spec_max_z(),
            !has_preview(final(self)@, id.0),
            has_preview(old(self)@, id.0) ==> final(self)@ == old(self)@.remove(
                preview_ix(old(self)@, id.0),
            ),
            !has_preview(old(self)@, id.0) ==> final(self)@ == old(self)@,
    {
        let ghost before = self@;
        match self.find_index(id.0) {
            Some(k) => {
                proof {
                    lemma_preview_ix(before, id.0, k as int);
                }
                self.previews.remove(k);
                proof {
                    assert(self@ =~= before.remove(k as int));
                    assert forall|i: int| 0 <= i < self@.len() implies self@[i].id != id.0 by {
                        if i < k {
                            assert(self@[i] == before[i]);
                        } else {
                            assert(self@[i] == before[i + 1]);
                        }
                    }
                }
            },
            None => {},
        }
    }

    /// Drop every preview and reset the identifier counter.
    pub fn clear(&mut self)
        ensures
            final(self)@ == Seq::<PreviewModel>::empty(),
            final(self).wf(),
            final(self).can_add(),
            final(self).spec_next_id() == 1,
            final(self).spec_max_z() == 0,
    {
        self.previews.clear();
        self.next_id = 1;
        self.max_z_order = 0;
        proof {
            assert(self@ =~= Seq::<PreviewModel>::empty());
        }
    }

    /// Get a preview by identifier.
    pub fn get(&self, id: PreviewId) -> (found: Option<&Preview>)
        requires
            self.wf(),
        ensures
            match found {
                Some(preview) => has_preview(self@, id.0) && preview@ == self@[preview_ix(
                    self@,
                    id.0,
                )],
                None => !has_preview(self@, id.0),
            },
    {
        match self.find_index(id.0) {
            Some(k) => {
                proof {
                    lemma_preview_ix(self@, id.0, k as int);
                }
                Some(&self.previews[k])
            },
            None => None,
        }
    }

    /// The number of previews.
    pub fn count(&self) -> (n: usize)
        ensures
            n == self@.len(),
    {
        self.previews.len()
    }

    /// Route one drained frame into the mailbox of the preview it addresses;
    /// a frame whose identifier is unknown is dropped.
    pub fn update_frame(&mut self, id: PreviewId, width: u32, height: u32, data: Vec<u8>) -> (routed: bool)
        requires
            old(self).wf(),
        ensures
            final(self).wf(),
            final(self).spec_next_id() == old(self).spec_next_id(),
            final(self).spec_max_z() == old(self).spec_max_z(),
            routed == has_preview(old(self)@, id.0),
            final(self)@ == apply_frame(
                old(self)@,
                CapturedFrameModel { preview_id: id.0, width, height, data: data@ },
            ),
    {
        let ghost before = self@;
        let ghost fm = CapturedFrameModel { preview_id: id.0, width, height, data: data@ };
        match self.find_index(id.0) {
            Some(k) => {
                proof {
                    lemma_preview_ix(before, id.0, k as int);
                }
                let mut preview = self.previews.remove(k);
                preview.update_frame(width, height, data);
                self.previews.insert(k, preview);
                proof {
                    assert(self@ =~= before.update(
                        k as int,
                        preview_after_frame(before[k as int], fm.content()),
                    ));
                    assert(forall|i: int| 0 <= i < self@.len() ==> self@[i].id == before[i].id);
                }
                true
            },
            None => false,
        }
    }

    /// The renderer's pull for one source: remove and return its pending
    /// frame, if any.
    pub fn take_frame(&mut self, id: PreviewId) -> (taken: Option<FrameData>)
        requires
            old(self).wf(),
        ensures
            final(self).wf(),
            final(self).spec_next_id() == old(self).spec_next_id(),
            final(self).spec_max_z() == old(self).spec_max_z(),
            has_preview(old(self)@, id.0) ==> {
                let ix = preview_ix(old(self)@, id.0);
                &&& final(self)@ == old(self)@.update(
                    ix,
                    PreviewModel { slot: None::<FrameModel>, ..old(self)@[ix] },
                )
                &&& match taken {
                    Some(frame) => old(self)@[ix].slot == Some(frame@),
                    None => old(self)@[ix].slot is None,
                }
            },
            !has_preview(old(self)@, id.0) ==> final(self)@ == old(self)@ && taken is None,
    {
        let ghost before = self@;
        match self.find_index(id.0) {
            Some(k) => {
                proof {
                    lemma_preview_ix(before, id.0, k as int);
                }
                let mut preview = self.previews.remove(k);
                let taken = preview.take_frame();
                self.previews.insert(k, preview);
                proof {
                    assert(self@ =~= before.update(
                        k as int,
                        PreviewModel { slot: None::<FrameModel>, ..before[k as int] },
                    ));
                    assert(forall|i: int| 0 <= i < self@.len() ==> self@[i].id == before[i].id);
                }
                taken
            },
            None => None,
        }
    }

    /// Whether a source has an undelivered frame waiting.
    pub fn has_pending_frame(&self, id: PreviewId) -> (pending: bool)
        requires
            self.wf(),
        ensures
            pending == (has_preview(self@, id.0) && self@[preview_ix(self@, id.0)].slot is Some),
    {
        match self.find_index(id.0) {
            Some(k) => {
                proof {
                    lemma_preview_ix(self@, id.0, k as int);
                }
                self.previews[k].has_pending_frame()
            },
            None => false,
        }
    }

    /// Set the rate preset of one preview; no-op when the identifier is
    /// unknown.
    pub fn set_fps_preset(&mut self, id: PreviewId, preset: FpsPreset) -> (known: bool)
        requires
            old(self).wf(),
        ensures
            final(self).wf(),
            final(self).spec_next_id() == old(self).spec_next_id(),
            final(self).spec_max_z() == old(self).spec_max_z(),
            known == has_preview(old(self)@, id.0),
            has_preview(old(self)@, id.0) ==> {
                let ix = preview_ix(old(self)@, id.0);
                final(self)@ == old(self)@.update(
                    ix,
                    PreviewModel {
                        fps_preset: preset,
                        target_fps: preset.spec_rate(),
                        ..old(self)@[ix]
                    },
                )
            },
            !has_preview(old(self)@, id.0) ==> final(self)@ == old(self)@,
    {
        let ghost before = self@;
        match self.find_index(id.0) {
            Some(k) => {
                proof {
                    lemma_preview_ix(before, id.0, k as int);
                }
                let mut preview = self.previews.remove(k);
                preview.set_fps_preset(preset);
                self.previews.insert(k, preview);
                proof {
                    assert(self@ =~= before.update(
                        k as int,
                        PreviewModel {
                            fps_preset: preset,
                            target_fps: preset.spec_rate(),
                            ..before[k as int]
                        },
                    ));
                    assert(forall|i: int| 0 <= i < self@.len() ==> self@[i].id == before[i].id);
                }
                true
            },
            None => false,
        }
    }

    /// Record whether capture is running for one preview; no-op when the
    /// identifier is unknown.
    pub fn set_capture_active(&mut self, id: PreviewId, active: bool) -> (known: bool)
        requires
            old(self).wf(),
        ensures
            final(self).wf(),
            final(self).spec_next_id() == old(self).spec_next_id(),
            final(self).spec_max_z() == old(self).spec_max_z(),
            known == has_preview(old(self)@, id.0),
            has_preview(old(self)@, id.0) ==> {
                let ix = preview_ix(old(self)@, id.0);
                final(self)@ == old(self)@.update(
                    ix,
                    PreviewModel { capture_active: active, ..old(self)@[ix] },
                )
            },
            !has_preview(old(self)@, id.0) ==> final(self)@ == old(self)@,
    {
        let ghost before = self@;
        match self.find_index(id.0) {
            Some(k) => {
                proof {
                    lemma_preview_ix(before, id.0, k as int);
                }
                let mut preview = self.previews.remove(k);
                preview.capture_active = active;
                self.previews.insert(k, preview);
                proof {
                    assert(self@ =~= before.update(
                        k as int,
                        PreviewModel { capture_active: active, ..before[k as int] },
                    ));
                    assert(forall|i: int| 0 <= i < self@.len() ==> self@[i].id == before[i].id);
                }
                true
            },
            None => false,
        }
    }

    /// Record whether a preview's capture is paused for culling; no-op when
    /// the identifier is unknown.
    pub fn set_capture_paused(&mut self, id: PreviewId, paused: bool) -> (known: bool)
        requires
            old(self).wf(),
        ensures
            final(self).wf(),
            final(self).spec_next_id() == old(self).spec_next_id(),
            final(self).spec_max_z() == old(self).spec_max_z(),
            known == has_preview(old(self)@, id.0),
            has_preview(old(self)@, id.0) ==> {
                let ix = preview_ix(old(self)@, id.0);
                final(self)@ == old(self)@.update(
                    ix,
                    PreviewModel { capture_paused: paused, ..old(self)@[ix] },
                )
            },
            !has_preview(old(self)@, id.0) ==> final(self)@ == old(self)@,
    {
        let ghost before = self@;
        match self.find_index(id.0) {
            Some(k) => {
                proof {
                    lemma_preview_ix(before, id.0, k as int);
                }
                let mut preview = self.previews.remove(k);
                preview.capture_paused = paused;
                self.previews.insert(k, preview);
                proof {
                    assert(self@ =~= before.update(
                        k as int,
                        PreviewModel { capture_paused: paused, ..before[k as int] },
                    ));
                    assert(forall|i: int| 0 <= i < self@.len() ==> self@[i].id == before[i].id);
                }
                true
            },
            None => false,
        }
    }

    /// Raise one preview above everything else by giving it a fresh top
    /// z-order; no-op when the identifier is unknown.
    pub fn bring_to_front(&mut self, id: PreviewId) -> (known: bool)
        requires
            old(self).wf(),
            old(self).spec_max_z() < u32::MAX,
        ensures
            final(self).wf(),
            final(self).spec_next_id() == old(self).spec_next_id(),
            known == has_preview(old(self)@, id.0),
            has_preview(old(self)@, id.0) ==> {
                let ix = preview_ix(old(self)@, id.0);
                &&& final(self).spec_max_z() == old(self).spec_max_z() + 1
                &&& final(self)@ == old(self)@.update(
                    ix,
                    PreviewModel {
                        z_order: (old(self).spec_max_z() + 1) as u32,
                        ..old(self)@[ix]
                    },
                )
            },
            !has_preview(old(self)@, id.0) ==> final(self)@ == old(self)@
                && final(self).spec_max_z() == old(self).spec_max_z(),
    {
        let ghost before = self@;
        match self.find_index(id.0) {
            Some(k) => {
                proof {
                    lemma_preview_ix(before, id.0, k as int);
                }
                self.max_z_order = self.max_z_order + 1;
                let mut preview = self.previews.remove(k);
                preview.z_order = self.max_z_order;
                self.previews.insert(k, preview);
                proof {
                    assert(self@ =~= before.update(
                        k as int,
                        PreviewModel { z_order: self.max_z_order, ..before[k as int] },
                    ));
                    assert(forall|i: int| 0 <= i < self@.len() ==> self@[i].id == before[i].id);
                }
                true
            },
            None => false,
        }
    }

    /// Drop one preview to the bottom of the z-order and renumber all
    /// previews densely from zero, in z-order, ties broken by registry
    /// order. Everything but the z-orders stays as it was.
    pub fn send_to_back(&mut self, id: PreviewId)
        requires
            old(self).wf(),
            old(self)@.len() <= u32::MAX,
        ensures
            final(self).wf(),
            final(self).spec_next_id() == old(self).spec_next_id(),
            final(self).spec_max_z() == old(self)@.len(),
            final(self)@.len() == old(self)@.len(),
            forall|i: int|
                0 <= i < old(self)@.len() ==> final(self)@[i] == (PreviewModel {
                    z_order: z_rank(zeroed_orders(old(self)@, id.0), i) as u32,
                    ..old(self)@[i]
                }),
    {
        let ghost before = self@;
        let n = self.previews.len();

        let mut orders: Vec<u32> = Vec::new();
        let mut i: usize = 0;
        while i < n
            invariant
                i <= n,
                n == self@.len(),
                n == self.previews@.len(),
                self@ == before,
                self.spec_next_id() == old(self).spec_next_id(),
                orders@.len() == i,
                forall|j: int| 0 <= j < i ==> orders@[j] == zeroed_orders(before, id.0)[j],
            decreases n - i,
        {
            if self.previews[i].id.0 == id.0 {
                orders.push(0);
            } else {
                orders.push(self.previews[i].z_order);
            }
            i = i + 1;
        }
        proof {
            assert(orders@ =~= zeroed_orders(before, id.0));
        }

        let mut i: usize = 0;
        while i < n
            invariant
                i <= n,
                n == before.len(),
                n <= u32::MAX,
                self@.len() == n,
                self.previews@.len() == n,
                self.spec_next_id() == old(self).spec_next_id(),
                orders@ == zeroed_orders(before, id.0),
                orders@.len() == n,
                forall|k: int|
                    0 <= k < i ==> self@[k] == (PreviewModel {
                        z_order: z_rank(orders@, k) as u32,
                        ..before[k]
                    }),
                forall|k: int| i <= k < n ==> self@[k] == before[k],
            decreases n - i,
        {
            let mut rank: usize = 0;
            let mut j: usize = 0;
            while j < n
                invariant
                    j <= n,
                    i < n,
                    n == orders@.len(),
                    rank <= j,
                    rank == count_lex_before(orders@, i as int, j as int),
                decreases n - j,
            {
                if orders[j] < orders[i] || (orders[j] == orders[i] && j < i) {
                    rank = rank + 1;
                }
                j = j + 1;
            }
            let ghost mid = self@;
            let mut preview = self.previews.remove(i);
            preview.z_order = rank as u32;
            self.previews.insert(i, preview);
            proof {
                assert(self@ =~= mid.update(
                    i as int,
                    PreviewModel { z_order: (rank as u32), ..mid[i as int] },
                ));
            }
            i = i + 1;
        }
        self.max_z_order = n as u32;
        proof {
            assert forall|a: int, b: int|
                0 <= a < b < self@.len() implies self@[a].id != self@[b].id by {
                assert(self@[a].id == before[a].id);
                assert(self@[b].id == before[b].id);
            }
            assert forall|a: int|
                0 <= a < self@.len() implies (#[trigger] self@[a]).id < self.spec_next_id() by {
                assert(self@[a].id == before[a].id);
            }
        }
    }

    /// All preview identifiers, in registry order.
    pub fn all_ids(&self) -> (ids: Vec<PreviewId>)
        ensures
            ids@.len() == self@.len(),
            forall|i: int| 0 <= i < self@.len() ==> (#[trigger] ids@[i]).0 == self@[i].id,
    {
        let n = self.previews.len();
        let mut ids: Vec<PreviewId> = Vec::new();
        let mut k: usize = 0;
        while k < n
            invariant
                k <= n,
                n == self@.len(),
                n == self.previews@.len(),
                ids@.len() == k,
                forall|i: int| 0 <= i < k ==> (#[trigger] ids@[i]).0 == self@[i].id,
            decreases n - k,
        {
            ids.push(self.previews[k].id);
            k = k + 1;
        }
        ids
    }

    /// Whether any preview has an active capture.
    pub fn has_active_captures(&self) -> (active: bool)
        ensures
            active == exists|i: int| 0 <= i < self@.len() && (#[trigger] self@[i]).capture_active,
    {
        let n = self.previews.len();
        let mut k: usize = 0;
        while k < n
            invariant
                k <= n,
                n == self@.len(),
                n == self.previews@.len(),
                forall|i: int| 0 <= i < k ==> !(#[trigger] self@[i]).capture_active,
            decreases n - k,
        {
            if self.previews[k].capture_active {
                assert(self@[k as int].capture_active);
                return true;
            }
            assert(!self@[k as int].capture_active);
            k = k + 1;
        }
        false
    }
}

/// The capture targets among a registry's previews: the identifier and
/// window handle of each preview that has a window, in registry order.
pub open spec fn targets_of(s: Seq<PreviewModel>) -> Seq<(u64, isize)>
    decreases s.len(),
{
    if s.len() == 0 {
        Seq::empty()
    } else {
        let rest = targets_of(s.drop_first());
        match s[0].window_handle {
            Some(h) => seq![(s[0].id, h.hwnd)] + rest,
            None => rest,
        }
    }
}

/// The z-orders a renumbering ranks by: each preview's own z-order, with the
/// preview being sent to the back counted as zero.
pub open spec fn zeroed_orders(s: Seq<PreviewModel>, id: u64) -> Seq<u32> {
    Seq::new(s.len(), |i: int| if s[i].id == id { 0u32 } else { s[i].z_order })
}

/// Whether position `j` sorts strictly before position `i`: by z-order, ties
/// broken by position.
pub open spec fn lex_before(orders: Seq<u32>, j: int, i: int) -> bool {
    orders[j] < orders[i] || (orders[j] == orders[i] && j < i)
}

/// How many of the first `upto` positions sort strictly before position `i`.
pub open spec fn count_lex_before(orders: Seq<u32>, i: int, upto: int) -> nat
    decreases upto,
{
    if upto <= 0 {
        0
    } else {
        count_lex_before(orders, i, upto - 1) + if lex_before(orders, upto - 1, i) {
            1nat
        } else {
            0nat
        }
    }
}

/// The dense rank a renumbering gives position `i`: how many positions sort
/// strictly before it.
pub open spec fn z_rank(orders: Seq<u32>, i: int) -> nat {
    count_lex_before(orders, i, orders.len() as int)
}

/// Unfolding step of `targets_of` along a registry's suffixes.
proof fn lemma_targets_of_step(s: Seq<PreviewModel>, k: int)
    requires
        0 <= k < s.len(),
    ensures
        targets_of(s.skip(k)) == match s[k].window_handle {
            Some(h) => seq![(s[k].id, h.hwnd)] + targets_of(s.skip(k + 1)),
            None => targets_of(s.skip(k + 1)),
        },
{
    assert(s.skip(k).drop_first() =~= s.skip(k + 1));
    assert(s.skip(k)[0] == s[k]);
    assert(s.skip(k).len() > 0);
}

impl PreviewManager {
    /// All previews that have a window handle, for capture coordination.
    pub fn get_capture_targets(&self) -> (targets: Vec<(PreviewId, isize)>)
        ensures
            targets@.len() == targets_of(self@).len(),
            forall|i: int|
                0 <= i < targets@.len() ==> ((#[trigger] targets@[i]).0.0, targets@[i].1)
                    == targets_of(self@)[i],
    {
        let n = self.previews.len();
        let mut targets: Vec<(PreviewId, isize)> = Vec::new();
        let ghost mut acc: Seq<(u64, isize)> = Seq::empty();
        proof {
            assert(self@.skip(0) =~= self@);
            assert(acc + targets_of(self@) =~= targets_of(self@));
        }
        let mut k: usize = 0;
        while k < n
            invariant
                k <= n,
                n == self@.len(),
                n == self.previews@.len(),
                acc.len() == targets@.len(),
                forall|i: int|
                    0 <= i < acc.len() ==> ((#[trigger] targets@[i]).0.0, targets@[i].1)
                        == acc[i],
                targets_of(self@) == acc + targets_of(self@.skip(k as int)),
            decreases n - k,
        {
            proof {
                lemma_targets_of_step(self@, k as int);
            }
            let ghost old_acc = acc;
            match &self.previews[k].window_handle {
                Some(h) => {
                    let pair = (self.previews[k].id, h.hwnd);
                    proof {
                        assert(self@[k as int] == self.previews@[k as int]@);
                        assert(pair.0.0 == self@[k as int].id);
                        assert(self@[k as int].window_handle == Some(*h));
                    }
                    targets.push(pair);
                    proof {
                        acc = acc.push((pair.0.0, pair.1));
                        assert(old_acc + (seq![(self@[k as int].id, h.hwnd)] + targets_of(
                            self@.skip(k as int + 1),
                        )) =~= acc + targets_of(self@.skip(k as int + 1)));
                    }
                },
                None => {
                    proof {
                        assert(self@[k as int] == self.previews@[k as int]@);
                        assert(self@[k as int].window_handle is None);
                    }
                },
            }
            k = k + 1;
        }
        proof {
            assert(self@.skip(n as int) =~= Seq::<PreviewModel>::empty());
            assert(targets_of(Seq::<PreviewModel>::empty()) == Seq::<(u64, isize)>::empty());
            assert(acc + Seq::<(u64, isize)>::empty() =~= acc);
        }
        targets
    }
}

} // verus!
