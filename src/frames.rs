use vstd::prelude::*;

verus! {

/// A raw RGB video frame: `data` holds 3 bytes per pixel, row after row.
#[derive(Debug, Clone)]
pub struct VideoFrame {
    pub timestamp_ms: u64,
    pub width: u32,
    pub height: u32,
    pub data: Vec<u8>,
}

/// A chunk of raw audio: little-endian 16-bit PCM, channels interleaved.
#[derive(Debug, Clone)]
pub struct InputAudioFrame {
    pub timestamp_ms: u64,
    pub sample_rate: u32,
    pub channels: u8,
    pub data: Vec<u8>,
}

/// Milliseconds in a timestamp given in microseconds, rounded down.
pub open spec fn micros_to_millis(us: u64) -> u64 {
    (us / 1000) as u64
}

impl VideoFrame {
    /// A frame as the device stream delivers it, stamped in microseconds.
    pub fn from_stream(timestamp_us: u64, width: u32, height: u32, data: Vec<u8>) -> (r: Self)
        ensures
            r.timestamp_ms == micros_to_millis(timestamp_us),
            r.width == width,
            r.height == height,
            r.data == data,
    {
        VideoFrame { timestamp_ms: timestamp_us / 1000, width, height, data }
    }
}

impl InputAudioFrame {
    /// An audio packet as the device stream delivers it, stamped in microseconds.
    pub fn from_stream(timestamp_us: u64, sample_rate: u32, channels: u8, data: Vec<u8>) -> (r:
        Self)
        ensures
            r.timestamp_ms == micros_to_millis(timestamp_us),
            r.sample_rate == sample_rate,
            r.channels == channels,
            r.data == data,
    {
        InputAudioFrame { timestamp_ms: timestamp_us / 1000, sample_rate, channels, data }
    }
}

} // verus!
