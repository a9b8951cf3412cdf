//! The per-source frame mailbox: a single slot, overwritten on every
//! accepted frame and emptied when the renderer takes its contents. Frames
//! arriving faster than the consumer drains are silently superseded; the
//! newest frame wins, nothing is queued, and the producer sees no
//! backpressure.

use vstd::prelude::*;
use crate::frame::{FrameData, FrameModel};

verus! {

/// Single-slot, overwrite-on-write, take-on-read buffer for one source.
pub struct FrameMailbox {
    slot: Option<FrameData>,
}

impl View for FrameMailbox {
    type V = Option<FrameModel>;

    closed spec fn view(&self) -> Option<FrameModel> {
        match self.slot {
            Some(ref frame) => Some(frame@),
            None => None,
        }
    }
}

impl FrameMailbox {
    /// A mailbox holding no frame.
    pub fn new() -> (mailbox: FrameMailbox)
        ensures
            mailbox@ is None,
    {
        FrameMailbox { slot: None }
    }

    /// Overwrite the slot with a new frame; whatever was there is dropped.
    pub fn put(&mut self, frame: FrameData)
        ensures
            final(self)@ == Some(frame@),
    {
        self.slot = Some(frame);
    }

    /// Remove and return the slot's contents; the slot is empty afterwards.
    pub fn take(&mut self) -> (taken: Option<FrameData>)
        ensures
            final(self)@ is None,
            match taken {
                Some(frame) => old(self)@ == Some(frame@),
                None => old(self)@ is None,
            },
    {
        self.slot.take()
    }

    /// Whether an undelivered frame is waiting.
    pub fn has_pending(&self) -> (pending: bool)
        ensures
            pending == (self@ is Some),
    {
        self.slot.is_some()
    }
}

} // verus!
