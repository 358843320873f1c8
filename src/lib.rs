//! Capture of a device's live audio and video into a bounded recent window,
//! and the planning of a synchronized MP4 file from that window: ring
//! buffers with first-in first-out eviction, alignment of the two streams
//! to their common time range, and the frame-by-frame plans that an encoder
//! consumes. Beside it, parsers for the output of the device's shell
//! commands and an in-memory tree of the device's files.
use vstd::prelude::*;

pub mod adb;
pub mod audio;
pub mod capture;
pub mod encode;
pub mod frames;
pub mod fs_tree;
pub mod fs_types;
pub mod icons;
pub mod ring;
pub mod sync;
pub mod text;

verus! {

} // verus!
