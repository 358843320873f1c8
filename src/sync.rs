use crate::frames::{InputAudioFrame, VideoFrame};
use std::collections::VecDeque;
use vstd::prelude::*;

verus! {

/// A media record stamped with a time in milliseconds.
pub trait Timed: Sized {
    spec fn time(&self) -> u64;

    fn stamp(&self) -> (r: u64)
        ensures
            r == self.time(),
    ;
}

impl Timed for VideoFrame {
    open spec fn time(&self) -> u64 {
        self.timestamp_ms
    }

    fn stamp(&self) -> (r: u64) {
        self.timestamp_ms
    }
}

impl Timed for InputAudioFrame {
    open spec fn time(&self) -> u64 {
        self.timestamp_ms
    }

    fn stamp(&self) -> (r: u64) {
        self.timestamp_ms
    }
}

/// Holds of a record stamped within `[lo, hi]`.
pub open spec fn within<T: Timed>(lo: u64, hi: u64) -> spec_fn(T) -> bool {
    |x: T| lo <= x.time() && x.time() <= hi
}

/// Start of the window that both streams cover: the later of the two first stamps.
pub open spec fn overlap_start(v: Seq<VideoFrame>, a: Seq<InputAudioFrame>) -> u64 {
    if v[0].timestamp_ms >= a[0].timestamp_ms {
        v[0].timestamp_ms
    } else {
        a[0].timestamp_ms
    }
}

/// End of the window that both streams cover: the earlier of the two last stamps.
pub open spec fn overlap_end(v: Seq<VideoFrame>, a: Seq<InputAudioFrame>) -> u64 {
    if v.last().timestamp_ms <= a.last().timestamp_ms {
        v.last().timestamp_ms
    } else {
        a.last().timestamp_ms
    }
}

/// Both streams hold records and their time ranges intersect in more than one instant.
pub open spec fn has_overlap(v: Seq<VideoFrame>, a: Seq<InputAudioFrame>) -> bool {
    v.len() > 0 && a.len() > 0 && overlap_start(v, a) < overlap_end(v, a)
}

/// The streams to encode: trimmed to their common window, or the video alone.
pub enum Synced {
    Synchronized { video: Vec<VideoFrame>, audio: Vec<InputAudioFrame> },
    VideoOnly { video: Vec<VideoFrame> },
}

impl Synced {
    /// The video records to encode.
    pub open spec fn video_view(&self) -> Seq<VideoFrame> {
        match self {
            Synced::Synchronized { video, .. } => video@,
            Synced::VideoOnly { video } => video@,
        }
    }

    /// The audio records to encode; none for a video-only outcome.
    pub open spec fn audio_view(&self) -> Seq<InputAudioFrame> {
        match self {
            Synced::Synchronized { audio, .. } => audio@,
            Synced::VideoOnly { .. } => Seq::empty(),
        }
    }

    pub fn has_audio(&self) -> (r: bool)
        ensures
            r == (self is Synchronized),
    {
        match self {
            Synced::Synchronized { .. } => true,
            Synced::VideoOnly { .. } => false,
        }
    }

    pub fn video(&self) -> (r: &Vec<VideoFrame>)
        ensures
            r@ == self.video_view(),
    {
        match self {
            Synced::Synchronized { video, .. } => video,
            Synced::VideoOnly { video } => video,
        }
    }

    /// Splits the outcome into its video and audio records.
    pub fn into_parts(self) -> (r: (Vec<VideoFrame>, Vec<InputAudioFrame>))
        ensures
            r.0@ == self.video_view(),
            r.1@ == self.audio_view(),
    {
        match self {
            Synced::Synchronized { video, audio } => (video, audio),
            Synced::VideoOnly { video } => (video, Vec::new()),
        }
    }
}

/// The records of `q` stamped within `[lo, hi]`, in order.
pub fn take_window<T: Timed>(q: VecDeque<T>, lo: u64, hi: u64) -> (r: Vec<T>)
    ensures
        r@ == q@.filter(within::<T>(lo, hi)),
{
    let ghost orig = q@;
    let mut q = q;
    let mut out: Vec<T> = Vec::new();
    let ghost mut k: int = 0;
    while q.len() > 0
        invariant
            0 <= k <= orig.len(),
            q@ == orig.subrange(k, orig.len() as int),
            out@ == orig.take(k).filter(within::<T>(lo, hi)),
        decreases q@.len(),
    {
        let x = q.pop_front().unwrap();
        proof {
            assert(orig.take(k + 1) =~= orig.take(k).push(x));
            orig.take(k).lemma_filter_push(x, within::<T>(lo, hi));
            k = k + 1;
        }
        let t = x.stamp();
        if lo <= t && t <= hi {
            out.push(x);
        }
    }
    proof {
        assert(orig.take(k) =~= orig);
    }
    out
}

/// All records of `q`, in order.
pub fn take_all<T>(q: VecDeque<T>) -> (r: Vec<T>)
    ensures
        r@ == q@,
{
    let ghost orig = q@;
    let mut q = q;
    let mut out: Vec<T> = Vec::new();
    while q.len() > 0
        invariant
            orig == out@ + q@,
        decreases q@.len(),
    {
        let x = q.pop_front().unwrap();
        proof {
            assert(out@.push(x) + q@ =~= orig);
        }
        out.push(x);
    }
    proof {
        assert(out@ + q@ =~= out@);
    }
    out
}

/// Aligns the two streams: with no audio, or no common window, the video is
/// kept whole and the audio dropped; otherwise both are trimmed to the records
/// stamped within the common window.
pub fn synchronize(video: VecDeque<VideoFrame>, audio: VecDeque<InputAudioFrame>) -> (r: Synced)
    ensures
        !has_overlap(video@, audio@) ==> r is VideoOnly && r.video_view() == video@,
        has_overlap(video@, audio@) ==> {
            let lo = overlap_start(video@, audio@);
            let hi = overlap_end(video@, audio@);
            &&& r is Synchronized
            &&& r.video_view() == video@.filter(within::<VideoFrame>(lo, hi))
            &&& r.audio_view() == audio@.filter(within::<InputAudioFrame>(lo, hi))
        },
{
    if video.len() == 0 || audio.len() == 0 {
        return Synced::VideoOnly { video: take_all(video) };
    }
    let video_start = video[0].timestamp_ms;
    let video_end = video[video.len() - 1].timestamp_ms;
    let audio_start = audio[0].timestamp_ms;
    let audio_end = audio[audio.len() - 1].timestamp_ms;
    let lo = if video_start >= audio_start {
        video_start
    } else {
        audio_start
    };
    let hi = if video_end <= audio_end {
        video_end
    } else {
        audio_end
    };
    if hi <= lo {
        Synced::VideoOnly { video: take_all(video) }
    } else {
        let v = take_window(video, lo, hi);
        let a = take_window(audio, lo, hi);
        Synced::Synchronized { video: v, audio: a }
    }
}

} // verus!
