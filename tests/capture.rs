use std::collections::VecDeque;
use stream_puffer::audio::{decode_stream, plan_audio, sample_from_le};
use stream_puffer::capture::{plan_audio_frames, plan_save, PufferConfig, SaveError};
use stream_puffer::encode::{frame_byte_len, pack_rows, plan_video, rebase_pts, FramePlan};
use stream_puffer::frames::{InputAudioFrame, VideoFrame};
use stream_puffer::ring::RingBuffer;
use stream_puffer::sync::{synchronize, Synced};

const W: u32 = 4;
const H: u32 = 2;

fn frame(ts: u64) -> VideoFrame {
    VideoFrame { timestamp_ms: ts, width: W, height: H, data: vec![7u8; (W * H * 3) as usize] }
}

fn chunk(ts: u64, data: Vec<u8>) -> InputAudioFrame {
    InputAudioFrame { timestamp_ms: ts, sample_rate: 1000, channels: 2, data }
}

fn video_of(ts: &[u64]) -> VecDeque<VideoFrame> {
    ts.iter().map(|t| frame(*t)).collect()
}

fn audio_of(ts: &[u64]) -> VecDeque<InputAudioFrame> {
    ts.iter().map(|t| chunk(*t, vec![0, 0, 0, 0])).collect()
}

fn config() -> PufferConfig {
    PufferConfig::new(100, 100, 30, 1000, 2, W, H)
}

fn stamps_v(v: &[VideoFrame]) -> Vec<u64> {
    v.iter().map(|f| f.timestamp_ms).collect()
}

fn stamps_a(a: &[InputAudioFrame]) -> Vec<u64> {
    a.iter().map(|f| f.timestamp_ms).collect()
}

#[test]
fn ring_keeps_most_recent_in_order() {
    let mut r: RingBuffer<u32> = RingBuffer::new(3);
    for i in 0..10u32 {
        r.push(i);
        assert!(r.len() <= 3);
    }
    let kept: Vec<u32> = r.contents().iter().copied().collect();
    assert_eq!(kept, vec![7, 8, 9]);
    assert_eq!(r.capacity(), 3);
}

#[test]
fn ring_below_capacity_keeps_all() {
    let mut r: RingBuffer<u32> = RingBuffer::new(5);
    r.push(1);
    r.push(2);
    let kept: Vec<u32> = r.contents().iter().copied().collect();
    assert_eq!(kept, vec![1, 2]);
}

#[test]
fn ring_of_capacity_zero_keeps_nothing() {
    let mut r: RingBuffer<u32> = RingBuffer::new(0);
    r.push(1);
    assert_eq!(r.len(), 0);
}

#[test]
fn frames_from_stream_convert_micros() {
    let f = VideoFrame::from_stream(1_234_567, W, H, vec![1, 2, 3]);
    assert_eq!(f.timestamp_ms, 1234);
    let a = InputAudioFrame::from_stream(999, 48000, 2, vec![]);
    assert_eq!(a.timestamp_ms, 0);
}

#[test]
fn overlap_trims_video_and_keeps_contained_audio() {
    let v = video_of(&[10, 40, 50, 100, 300, 301, 500]);
    let a = audio_of(&[50, 100, 200, 300]);
    let plan = plan_save(&config(), v, a).unwrap();
    assert!(plan.synced.has_audio());
    let (video, audio) = plan.synced.into_parts();
    assert_eq!(stamps_v(&video), vec![50, 100, 300]);
    assert_eq!(stamps_a(&audio), vec![50, 100, 200, 300]);
    let pts: Vec<i64> = plan.video.frames.iter().map(|p| p.pts).collect();
    assert_eq!(pts, vec![0, 50, 250]);
}

#[test]
fn disjoint_ranges_degrade_to_video_only() {
    let v = video_of(&[0, 50, 100]);
    let a = audio_of(&[200, 300]);
    let plan = plan_save(&config(), v, a).unwrap();
    assert!(!plan.synced.has_audio());
    let (video, audio) = plan.synced.into_parts();
    assert_eq!(stamps_v(&video), vec![0, 50, 100]);
    assert!(audio.is_empty());
}

#[test]
fn touching_ranges_have_no_overlap() {
    let s = synchronize(video_of(&[0, 100]), audio_of(&[100, 200]));
    assert!(matches!(s, Synced::VideoOnly { .. }));
}

#[test]
fn empty_audio_passes_video_through() {
    let v = video_of(&[5, 6, 7]);
    let plan = plan_save(&config(), v, VecDeque::new()).unwrap();
    assert!(!plan.synced.has_audio());
    assert_eq!(stamps_v(plan.synced.video()), vec![5, 6, 7]);
    assert_eq!(plan.video.frames.len(), 3);
}

#[test]
fn empty_video_fails() {
    let r = plan_save(&config(), VecDeque::new(), audio_of(&[1, 2]));
    assert_eq!(r.err(), Some(SaveError::EmptyBuffer));
    let r = plan_save(&config(), VecDeque::new(), VecDeque::new());
    assert_eq!(r.err(), Some(SaveError::EmptyBuffer));
}

#[test]
fn no_video_inside_window_fails() {
    let r = plan_save(&config(), video_of(&[0, 1000]), audio_of(&[100, 200]));
    assert_eq!(r.err(), Some(SaveError::EmptyBuffer));
}

#[test]
fn bad_settings_fail_before_encoding() {
    let c = PufferConfig::new(10, 10, 30, 1000, 2, 0, H);
    let r = plan_save(&c, video_of(&[1]), VecDeque::new());
    assert!(matches!(r, Err(SaveError::CodecConfigError(_))));
    let c = PufferConfig::new(10, 10, 0, 1000, 2, W, H);
    assert!(matches!(c.check(false), Err(SaveError::CodecConfigError(_))));
    let c = PufferConfig::new(10, 10, 30, 0, 2, W, H);
    assert!(c.check(false).is_ok());
    assert!(matches!(c.check(true), Err(SaveError::CodecConfigError(_))));
    assert_eq!(config().check(true), Ok((W * H * 3) as usize));
}

#[test]
fn malformed_frame_is_skipped() {
    let mut v = video_of(&[0, 10, 20, 30, 40]);
    v[2].data.pop();
    let plan = plan_save(&config(), v, VecDeque::new()).unwrap();
    let idx: Vec<usize> = plan.video.frames.iter().map(|p| p.index).collect();
    assert_eq!(idx, vec![0, 1, 3, 4]);
    assert_eq!(plan.video.skipped, vec![2]);
}

#[test]
fn malformed_first_frame_still_anchors_time() {
    let mut frames = vec![frame(100), frame(140), frame(180)];
    frames[0].data.clear();
    let plan = plan_video(&frames, (W * H * 3) as usize);
    assert_eq!(
        plan.frames,
        vec![FramePlan { index: 1, pts: 40 }, FramePlan { index: 2, pts: 80 }]
    );
}

#[test]
fn video_timeline_spans_input() {
    // 30 frames at 30 per second
    let stamps: Vec<u64> = (0..30u64).map(|i| 1000 + i * 1000 / 30).collect();
    let plan = plan_save(&config(), video_of(&stamps), VecDeque::new()).unwrap();
    assert_eq!(plan.video.frames.len(), 30);
    let last = plan.video.frames.last().unwrap().pts;
    assert_eq!(last, 966);
    let interval = 1000 / 30;
    assert!((1000 - (last + interval)).abs() <= interval);
}

#[test]
fn pts_is_rebased_and_clamped() {
    assert_eq!(rebase_pts(150, 100), 50);
    assert_eq!(rebase_pts(90, 100), -10);
    assert_eq!(rebase_pts(u64::MAX, 0), i64::MAX);
}

#[test]
fn frame_size_is_checked() {
    assert_eq!(frame_byte_len(640, 480), Some(921_600));
    assert_eq!(frame_byte_len(0, 480), Some(0));
}

#[test]
fn rows_are_laid_out_with_stride() {
    let src = vec![1u8, 2, 3, 4, 5, 6];
    let out = pack_rows(&src, 3, 2, 5);
    assert_eq!(out, vec![1, 2, 3, 0, 0, 4, 5, 6, 0, 0]);
    assert_eq!(pack_rows(&src, 3, 2, 3), src);
}

#[test]
fn samples_are_little_endian() {
    assert_eq!(sample_from_le(0x34, 0x12), 0x1234);
    assert_eq!(sample_from_le(0x00, 0x80), -32768);
    assert_eq!(sample_from_le(0xff, 0xff), -1);
    assert_eq!(sample_from_le(0xff, 0x7f), 32767);
}

#[test]
fn stream_spans_chunk_boundaries() {
    let chunks = vec![chunk(0, vec![1, 0, 2]), chunk(1, vec![]), chunk(2, vec![3, 0, 4, 0])];
    // the odd third byte of the first chunk is ignored
    assert_eq!(decode_stream(&chunks), vec![1, 3, 4]);
}

#[test]
fn audio_frames_are_deinterleaved() {
    let samples: Vec<i16> = (0..10).collect();
    let frames = plan_audio(&samples, 2, 2, 1000);
    assert_eq!(frames.len(), 2);
    assert_eq!(frames[0].planar, vec![0, 2, 1, 3]);
    assert_eq!(frames[1].planar, vec![4, 6, 5, 7]);
    assert_eq!(frames[0].pts, 0);
    assert_eq!(frames[1].pts, 2);
}

#[test]
fn audio_duration_matches_samples() {
    // 44100 samples per channel of stereo silence, in uneven chunks
    let total_bytes = 44100 * 2 * 2;
    let mut chunks = Vec::new();
    let mut left = total_bytes;
    let mut ts = 0;
    while left > 0 {
        let n = std::cmp::min(left, 3000);
        chunks.push(chunk(ts, vec![0u8; n]));
        left -= n;
        ts += 1;
    }
    let frames = plan_audio_frames(&chunks, 1024, 2, 44100).unwrap();
    assert_eq!(frames.len(), 43);
    let end_ms = frames.last().unwrap().pts + 1024 * 1000 / 44100;
    assert_eq!(frames.last().unwrap().pts, 42 * 1024 * 1000 / 44100);
    let frame_ms = 1024 * 1000 / 44100;
    assert!((1000 - end_ms).abs() <= frame_ms + 1);
}

#[test]
fn audio_frame_size_is_checked() {
    let chunks = vec![chunk(0, vec![0, 0])];
    assert!(matches!(plan_audio_frames(&chunks, 0, 2, 44100), Err(SaveError::CodecConfigError(_))));
    assert!(matches!(plan_audio_frames(&chunks, 4, 0, 44100), Err(SaveError::CodecConfigError(_))));
    assert!(matches!(
        plan_audio_frames(&chunks, usize::MAX, 2, 44100),
        Err(SaveError::CodecConfigError(_))
    ));
    assert_eq!(plan_audio_frames(&chunks, 4, 2, 44100).unwrap().len(), 0);
}
