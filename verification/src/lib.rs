//! Live-capture preview core: session lifecycle, target resolution with
//! fallback matching, software frame-rate throttling, a many-producer /
//! single-consumer frame channel drained in bounded batches, and single-slot
//! "latest frame wins" mailboxes consumed on demand by a renderer.

pub mod canvas;
pub mod codec;
pub mod coordinator;
pub mod enumerator;
pub mod frame;
pub mod mailbox;
pub mod picker;
pub mod preview;
pub mod resolver;
pub mod storage;
pub mod text;
pub mod throttle;
