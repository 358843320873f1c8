use crate::audio::{audio_pts, decode_stream, plan_audio, planar_block, stream_samples, AudioFramePlan};
use crate::encode::{
    first_stamp, frame_byte_len, malformed, plan_video, rgb_frame_len, video_plan, VideoPlan,
};
use crate::frames::{InputAudioFrame, VideoFrame};
use crate::sync::{has_overlap, overlap_end, overlap_start, synchronize, within, Synced};
use std::collections::VecDeque;
use vstd::prelude::*;

verus! {

/// Why a save produced no file.
#[derive(Debug, Clone, PartialEq, Eq)]
pub enum SaveError {
    /// No video frame to encode.
    EmptyBuffer,
    /// The fixed codec is not available.
    CodecUnavailable(String),
    /// The encoder cannot be configured with the given parameters.
    CodecConfigError(String),
    /// Creating, writing or finishing the output failed.
    IoError(String),
    /// The worker that encodes could not be awaited to completion.
    JoinError(String),
}

/// Fixed settings of one capture session.
#[derive(Debug, Clone, Copy)]
pub struct PufferConfig {
    pub max_frames: usize,
    pub max_audio_chunks: usize,
    pub target_fps: u32,
    pub audio_sample_rate: u32,
    pub audio_channels: u32,
    pub width: u32,
    pub height: u32,
}

/// The encoders can be opened with `c`: a frame has pixels and a size that
/// fits in memory, the frame rate is positive, and when audio is encoded
/// its rate and channel count are positive.
pub open spec fn config_ok(c: PufferConfig, with_audio: bool) -> bool {
    &&& c.width > 0
    &&& c.height > 0
    &&& c.target_fps > 0
    &&& rgb_frame_len(c.width, c.height) <= usize::MAX
    &&& with_audio ==> c.audio_sample_rate > 0 && c.audio_channels > 0
}

/// The video records left after aligning the two streams.
pub open spec fn synced_video(v: Seq<VideoFrame>, a: Seq<InputAudioFrame>) -> Seq<VideoFrame> {
    if has_overlap(v, a) {
        v.filter(within::<VideoFrame>(overlap_start(v, a), overlap_end(v, a)))
    } else {
        v
    }
}

/// The audio records left after aligning the two streams.
pub open spec fn synced_audio(v: Seq<VideoFrame>, a: Seq<InputAudioFrame>) -> Seq<
    InputAudioFrame,
> {
    if has_overlap(v, a) {
        a.filter(within::<InputAudioFrame>(overlap_start(v, a), overlap_end(v, a)))
    } else {
        Seq::empty()
    }
}

pub open spec fn is_config_error<T>(r: Result<T, SaveError>) -> bool {
    match r {
        Err(SaveError::CodecConfigError(_)) => true,
        _ => false,
    }
}

/// What a save encodes: the aligned streams and the frames planned from them.
pub struct SavePlan {
    pub synced: Synced,
    pub video: VideoPlan,
    pub frame_bytes: usize,
}

impl PufferConfig {
    pub fn new(
        max_frames: usize,
        max_audio_chunks: usize,
        target_fps: u32,
        audio_sample_rate: u32,
        audio_channels: u32,
        width: u32,
        height: u32,
    ) -> (r: Self)
        ensures
            r == (PufferConfig {
                max_frames,
                max_audio_chunks,
                target_fps,
                audio_sample_rate,
                audio_channels,
                width,
                height,
            }),
    {
        PufferConfig {
            max_frames,
            max_audio_chunks,
            target_fps,
            audio_sample_rate,
            audio_channels,
            width,
            height,
        }
    }

    /// Checks that the encoders can be opened with these settings, and gives
    /// the size of one video frame.
    pub fn check(&self, with_audio: bool) -> (r: Result<usize, SaveError>)
        ensures
            r is Ok <==> config_ok(*self, with_audio),
            r is Err ==> is_config_error(r),
            r is Ok ==> r->Ok_0 == rgb_frame_len(self.width, self.height),
    {
        if self.width == 0 || self.height == 0 {
            return Err(SaveError::CodecConfigError("frame width and height must be positive".to_string()));
        }
        if self.target_fps == 0 {
            return Err(SaveError::CodecConfigError("frame rate must be positive".to_string()));
        }
        if with_audio && (self.audio_sample_rate == 0 || self.audio_channels == 0) {
            return Err(SaveError::CodecConfigError("audio rate and channels must be positive".to_string()));
        }
        match frame_byte_len(self.width, self.height) {
            Some(n) => Ok(n),
            None => Err(SaveError::CodecConfigError("frame size does not fit in memory".to_string())),
        }
    }
}

/// Decides what a save of the two snapshots encodes. With no video, or no
/// video left once the streams are aligned, there is nothing to save; with
/// settings the encoders refuse, the save fails before any output; otherwise
/// the aligned streams are kept and their well-sized video frames planned.
pub fn plan_save(config: &PufferConfig, video: VecDeque<VideoFrame>, audio: VecDeque<
    InputAudioFrame,
>) -> (r: Result<SavePlan, SaveError>)
    ensures
        video@.len() == 0 ==> r == Err::<SavePlan, SaveError>(SaveError::EmptyBuffer),
        video@.len() > 0 && synced_video(video@, audio@).len() == 0 ==> r == Err::<
            SavePlan,
            SaveError,
        >(SaveError::EmptyBuffer),
        synced_video(video@, audio@).len() > 0 && !config_ok(*config, has_overlap(video@, audio@))
            ==> is_config_error(r),
        r is Ok <==> (synced_video(video@, audio@).len() > 0 && config_ok(
            *config,
            has_overlap(video@, audio@),
        )),
        r is Ok ==> {
            let p = r->Ok_0;
            let sv = synced_video(video@, audio@);
            &&& p.synced.video_view() == sv
            &&& p.synced.audio_view() == synced_audio(video@, audio@)
            &&& (p.synced is Synchronized <==> has_overlap(video@, audio@))
            &&& p.frame_bytes == rgb_frame_len(config.width, config.height)
            &&& p.video.frames@ == video_plan(sv, sv.len() as int, p.frame_bytes as int, first_stamp(sv))
            &&& p.video.skipped@ == malformed(sv, sv.len() as int, p.frame_bytes as int)
        },
{
    if video.len() == 0 {
        return Err(SaveError::EmptyBuffer);
    }
    let ghost v0 = video@;
    let ghost a0 = audio@;
    let synced = synchronize(video, audio);
    let with_audio = synced.has_audio();
    if synced.video().len() == 0 {
        return Err(SaveError::EmptyBuffer);
    }
    let frame_bytes = match config.check(with_audio) {
        Ok(n) => n,
        Err(e) => return Err(e),
    };
    let plan = plan_video(synced.video(), frame_bytes);
    proof {
        assert(has_overlap(v0, a0) == with_audio);
    }
    Ok(SavePlan { synced, video: plan, frame_bytes })
}

/// Empty-audio passthrough: with video and no audio, the streams are not
/// aligned, the video is kept whole and no audio is encoded.
pub proof fn lemma_empty_audio_passthrough(v: Seq<VideoFrame>, a: Seq<InputAudioFrame>)
    requires
        v.len() > 0,
        a.len() == 0,
    ensures
        !has_overlap(v, a),
        synced_video(v, a) == v,
        synced_audio(v, a) == Seq::<InputAudioFrame>::empty(),
{
}

/// Decodes the audio chunks and cuts them into frames of `frame_size`
/// samples per channel, as the opened audio encoder consumes them; the
/// samples after the last whole frame are dropped. Fails when the encoder
/// reported no frame size, or a frame cannot be held in memory.
pub fn plan_audio_frames(chunks: &Vec<InputAudioFrame>, frame_size: usize, channels: u32, rate: u32)
    -> (r: Result<Vec<AudioFramePlan>, SaveError>)
    ensures
        r is Ok <==> (frame_size > 0 && channels > 0 && rate > 0 && frame_size * channels
            <= usize::MAX),
        r is Err ==> is_config_error(r),
        r is Ok ==> {
            let s = stream_samples(chunks@);
            let frames = r->Ok_0@;
            let block = frame_size * channels;
            &&& frames.len() == s.len() as int / block
            &&& forall|k: int|
                0 <= k < frames.len() ==> {
                    &&& (#[trigger] frames[k]).pts == audio_pts(k * frame_size, rate as int)
                    &&& frames[k].planar@ == planar_block(
                        s,
                        k * block,
                        frame_size as int,
                        channels as int,
                    )
                }
        },
{
    if frame_size == 0 || channels == 0 || rate == 0 {
        return Err(SaveError::CodecConfigError("audio frame size, channels and rate must be positive".to_string()));
    }
    let ch: usize = channels as usize;
    if frame_size > usize::MAX / ch {
        proof {
            assert(frame_size * ch > usize::MAX) by (nonlinear_arith)
                requires
                    frame_size > usize::MAX / ch,
                    ch > 0,
            ;
        }
        return Err(SaveError::CodecConfigError("audio frame does not fit in memory".to_string()));
    }
    proof {
        assert(frame_size * ch <= usize::MAX) by (nonlinear_arith)
            requires
                frame_size <= usize::MAX / ch,
                ch > 0,
        ;
    }
    let samples = decode_stream(chunks);
    Ok(plan_audio(&samples, frame_size, ch, rate))
}

} // verus!
