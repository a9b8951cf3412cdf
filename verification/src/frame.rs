//! Plain data carried through the capture pipeline.

use vstd::prelude::*;

verus! {

/// Unique identifier for a preview; stable for the lifetime of one
/// observed source and used as the map key everywhere in this core.
#[derive(Clone, Copy, Hash, PartialEq, Eq, Structural, Debug)]
pub struct PreviewId(pub u64);

/// Frame-rate presets offered for capture.
#[derive(Clone, Copy, Debug, PartialEq, Eq, Structural)]
pub enum FpsPreset {
    Low,
    Medium,
    High,
}

impl FpsPreset {
    /// The target rate in frames per second that the preset stands for.
    pub fn as_u32(self) -> (rate: u32)
        ensures
            rate == self.spec_rate(),
            1 <= rate <= 60,
    {
        match self {
            FpsPreset::Low => 15,
            FpsPreset::Medium => 30,
            FpsPreset::High => 60,
        }
    }

    /// The rate each preset stands for.
    pub open spec fn spec_rate(self) -> u32 {
        match self {
            FpsPreset::Low => 15,
            FpsPreset::Medium => 30,
            FpsPreset::High => 60,
        }
    }

    /// Human-readable label for menus.
    pub fn label(self) -> (text: &'static str)
        ensures
            self is Low ==> text@ == "15 FPS (Low)"@,
            self is Medium ==> text@ == "30 FPS (Medium)"@,
            self is High ==> text@ == "60 FPS (High)"@,
    {
        match self {
            FpsPreset::Low => "15 FPS (Low)",
            FpsPreset::Medium => "30 FPS (Medium)",
            FpsPreset::High => "60 FPS (High)",
        }
    }
}

impl Default for FpsPreset {
    fn default() -> (preset: Self)
        ensures
            preset is Medium,
    {
        FpsPreset::Medium
    }
}

/// Handle of an observed on-screen source, as the host platform reports it.
#[derive(Clone, Copy, Debug)]
pub struct WindowHandle {
    pub hwnd: isize,
    pub process_id: u32,
}

/// Converted pixels held by a mailbox for one source, ready for the renderer.
#[derive(Clone)]
pub struct FrameData {
    pub width: u32,
    pub height: u32,
    pub data: Vec<u8>,
}

/// Mathematical content of one frame: its dimensions and its bytes.
pub ghost struct FrameModel {
    pub width: u32,
    pub height: u32,
    pub data: Seq<u8>,
}

impl View for FrameData {
    type V = FrameModel;

    open spec fn view(&self) -> FrameModel {
        FrameModel { width: self.width, height: self.height, data: self.data@ }
    }
}

/// One frame as a capture session forwards it on the shared channel,
/// in native channel order.
pub struct CapturedFrame {
    pub preview_id: PreviewId,
    pub width: u32,
    pub height: u32,
    pub data: Vec<u8>,
}

/// Mathematical content of one channel frame: the source it belongs to,
/// its dimensions and its bytes.
pub ghost struct CapturedFrameModel {
    pub preview_id: u64,
    pub width: u32,
    pub height: u32,
    pub data: Seq<u8>,
}

impl View for CapturedFrame {
    type V = CapturedFrameModel;

    open spec fn view(&self) -> CapturedFrameModel {
        CapturedFrameModel {
            preview_id: self.preview_id.0,
            width: self.width,
            height: self.height,
            data: self.data@,
        }
    }
}

impl CapturedFrameModel {
    /// The frame's content without its addressing.
    pub open spec fn content(self) -> FrameModel {
        FrameModel { width: self.width, height: self.height, data: self.data }
    }
}

} // verus!
