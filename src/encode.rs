use crate::frames::VideoFrame;
use vstd::arithmetic::div_mod::lemma_fundamental_div_mod_converse;
use vstd::prelude::*;

verus! {

/// Bytes in one RGB frame of `width` by `height` pixels.
pub open spec fn rgb_frame_len(width: u32, height: u32) -> int {
    width as int * height as int * 3
}

/// `x`, held to the range of `i64`.
pub open spec fn clamp_i64(x: int) -> i64 {
    if x > i64::MAX {
        i64::MAX
    } else if x < i64::MIN {
        i64::MIN
    } else {
        x as i64
    }
}

/// Presentation time of a frame stamped `ts`, in milliseconds since `first`.
pub open spec fn rebased_pts(ts: u64, first: u64) -> i64 {
    clamp_i64(ts as int - first as int)
}

/// One frame to encode: its position in the input and its presentation time.
#[derive(Debug, Clone, Copy, PartialEq, Eq, Structural)]
pub struct FramePlan {
    pub index: usize,
    pub pts: i64,
}

/// Which of the first `n` frames are encoded, and when: every frame of
/// `expected` bytes, stamped relative to `first`.
pub open spec fn video_plan(frames: Seq<VideoFrame>, n: int, expected: int, first: u64) -> Seq<
    FramePlan,
>
    decreases n,
{
    if n <= 0 {
        Seq::empty()
    } else {
        let prev = video_plan(frames, n - 1, expected, first);
        if frames[n - 1].data@.len() == expected {
            prev.push(
                FramePlan { index: (n - 1) as usize, pts: rebased_pts(frames[n - 1].timestamp_ms, first) },
            )
        } else {
            prev
        }
    }
}

/// Positions among the first `n` frames of those whose size is not `expected`.
pub open spec fn malformed(frames: Seq<VideoFrame>, n: int, expected: int) -> Seq<usize>
    decreases n,
{
    if n <= 0 {
        Seq::empty()
    } else {
        let prev = malformed(frames, n - 1, expected);
        if frames[n - 1].data@.len() == expected {
            prev
        } else {
            prev.push((n - 1) as usize)
        }
    }
}

/// Stamp of the first frame, from which presentation times count.
pub open spec fn first_stamp(frames: Seq<VideoFrame>) -> u64 {
    if frames.len() > 0 {
        frames[0].timestamp_ms
    } else {
        0
    }
}

/// The frames to encode and the positions of those skipped for a wrong size.
pub struct VideoPlan {
    pub frames: Vec<FramePlan>,
    pub skipped: Vec<usize>,
}

/// Byte `k` of a plane whose rows are `stride` bytes apart, filled row by row
/// from `src`, which holds `row` bytes per row; the bytes past `row` are zero.
pub open spec fn plane_byte(src: Seq<u8>, row: int, stride: int, k: int) -> u8 {
    if k % stride < row {
        src[(k / stride) * row + k % stride]
    } else {
        0
    }
}

/// The plane of `height` rows, `stride` bytes apart, that holds the rows of `src`.
pub open spec fn packed_plane(src: Seq<u8>, row: int, height: int, stride: int) -> Seq<u8> {
    Seq::new((height * stride) as nat, |k: int| plane_byte(src, row, stride, k))
}

/// Lays out tightly packed rows of `row` bytes into a plane whose rows are
/// `stride` bytes apart, as the converter expects its input.
pub fn pack_rows(src: &Vec<u8>, row: usize, height: usize, stride: usize) -> (r: Vec<u8>)
    requires
        row <= stride,
        src.len() == row * height,
        height * stride <= usize::MAX,
    ensures
        r@ == packed_plane(src@, row as int, height as int, stride as int),
{
    let mut out: Vec<u8> = Vec::new();
    let mut y: usize = 0;
    while y < height
        invariant
            row <= stride,
            src.len() == row * height,
            height * stride <= usize::MAX,
            y <= height,
            out@.len() == y * stride,
            forall|k: int| 0 <= k < out@.len() ==> out@[k] == plane_byte(src@, row as int, stride as int, k),
        decreases height - y,
    {
        let mut x: usize = 0;
        while x < stride
            invariant
                row <= stride,
                src.len() == row * height,
                height * stride <= usize::MAX,
                y < height,
                x <= stride,
                out@.len() == y * stride + x,
                forall|k: int|
                    0 <= k < out@.len() ==> out@[k] == plane_byte(src@, row as int, stride as int, k),
            decreases stride - x,
        {
            proof {
                assert(y * stride + stride <= height * stride) by (nonlinear_arith)
                    requires
                        y + 1 <= height,
                ;
                assert(y * row + row <= height * row) by (nonlinear_arith)
                    requires
                        y + 1 <= height,
                ;
                assert(row * height == height * row) by (nonlinear_arith);
                lemma_fundamental_div_mod_converse(
                    (y * stride + x) as int,
                    stride as int,
                    y as int,
                    x as int,
                );
            }
            let b: u8 = if x < row {
                src[y * row + x]
            } else {
                0
            };
            out.push(b);
            x = x + 1;
        }
        proof {
            assert((y + 1) * stride == y * stride + stride) by (nonlinear_arith);
        }
        y = y + 1;
    }
    proof {
        assert(out@ =~= packed_plane(src@, row as int, height as int, stride as int));
    }
    out
}

/// Size in bytes of one RGB frame, if it fits in `usize`.
pub fn frame_byte_len(width: u32, height: u32) -> (r: Option<usize>)
    ensures
        r is Some <==> rgb_frame_len(width, height) <= usize::MAX,
        r is Some ==> r.unwrap() == rgb_frame_len(width, height),
{
    assert(width as u128 * height as u128 <= 0xffff_ffff_u128 * 0xffff_ffff_u128) by (nonlinear_arith);
    let n: u128 = width as u128 * height as u128 * 3;
    if n <= usize::MAX as u128 {
        Some(n as usize)
    } else {
        None
    }
}

/// Presentation time of a frame stamped `ts` when the first frame was stamped `first`.
pub fn rebase_pts(ts: u64, first: u64) -> (r: i64)
    ensures
        r == rebased_pts(ts, first),
{
    let d: i128 = ts as i128 - first as i128;
    if d > i64::MAX as i128 {
        i64::MAX
    } else if d < i64::MIN as i128 {
        i64::MIN
    } else {
        d as i64
    }
}

/// Decides which frames are encoded: those of exactly `expected` bytes, in
/// order, each with its time since the first frame; the others are skipped.
pub fn plan_video(frames: &Vec<VideoFrame>, expected: usize) -> (r: VideoPlan)
    ensures
        r.frames@ == video_plan(frames@, frames@.len() as int, expected as int, first_stamp(frames@)),
        r.skipped@ == malformed(frames@, frames@.len() as int, expected as int),
{
    let first: u64 = if frames.len() > 0 {
        frames[0].timestamp_ms
    } else {
        0
    };
    let mut planned: Vec<FramePlan> = Vec::new();
    let mut skipped: Vec<usize> = Vec::new();
    let mut i: usize = 0;
    while i < frames.len()
        invariant
            i <= frames@.len(),
            first == first_stamp(frames@),
            planned@ == video_plan(frames@, i as int, expected as int, first),
            skipped@ == malformed(frames@, i as int, expected as int),
        decreases frames@.len() - i,
    {
        let f = &frames[i];
        if f.data.len() == expected {
            planned.push(FramePlan { index: i, pts: rebase_pts(f.timestamp_ms, first) });
        } else {
            skipped.push(i);
        }
        i = i + 1;
    }
    VideoPlan { frames: planned, skipped }
}

/// Every frame is either planned or skipped.
pub proof fn lemma_plan_partitions(frames: Seq<VideoFrame>, n: int, expected: int, first: u64)
    requires
        0 <= n <= frames.len(),
    ensures
        video_plan(frames, n, expected, first).len() + malformed(frames, n, expected).len() == n,
    decreases n,
{
    if n > 0 {
        lemma_plan_partitions(frames, n - 1, expected, first);
    }
}

/// When every frame has the expected size, each is encoded, in order, at its
/// time since the first frame.
pub proof fn lemma_video_timeline(frames: Seq<VideoFrame>, n: int, expected: int, first: u64)
    requires
        0 <= n <= frames.len() <= usize::MAX,
        forall|i: int| 0 <= i < frames.len() ==> frames[i].data@.len() == expected,
    ensures
        video_plan(frames, n, expected, first).len() == n,
        forall|k: int|
            0 <= k < n ==> #[trigger] video_plan(frames, n, expected, first)[k] == (FramePlan {
                index: k as usize,
                pts: rebased_pts(frames[k].timestamp_ms, first),
            }),
    decreases n,
{
    if n > 0 {
        lemma_video_timeline(frames, n - 1, expected, first);
    }
}

/// Malformed-frame skip: when exactly the frame at `j` has a wrong size, the
/// plan encodes the other frames, each once and in order, and skips only `j`.
pub proof fn lemma_skip_one_malformed(frames: Seq<VideoFrame>, expected: int, first: u64, j: int)
    requires
        0 <= j < frames.len() <= usize::MAX,
        frames[j].data@.len() != expected,
        forall|i: int| 0 <= i < frames.len() && i != j ==> frames[i].data@.len() == expected,
    ensures
        video_plan(frames, frames.len() as int, expected, first).len() == frames.len() - 1,
        forall|k: int|
            0 <= k < frames.len() - 1 ==> video_plan(frames, frames.len() as int, expected, first)[k].index
                == if k < j {
                k
            } else {
                k + 1
            },
        malformed(frames, frames.len() as int, expected) == seq![j as usize],
{
    lemma_skip_one_prefix(frames, expected, first, j, frames.len() as int);
}

proof fn lemma_skip_one_prefix(frames: Seq<VideoFrame>, expected: int, first: u64, j: int, n: int)
    requires
        0 <= j < frames.len() <= usize::MAX,
        0 <= n <= frames.len(),
        frames[j].data@.len() != expected,
        forall|i: int| 0 <= i < frames.len() && i != j ==> frames[i].data@.len() == expected,
    ensures
        video_plan(frames, n, expected, first).len() == if n <= j {
            n
        } else {
            n - 1
        },
        forall|k: int|
            0 <= k < video_plan(frames, n, expected, first).len() ==> video_plan(
                frames,
                n,
                expected,
                first,
            )[k].index == if k < j {
                k
            } else {
                k + 1
            },
        malformed(frames, n, expected) == if n <= j {
            Seq::<usize>::empty()
        } else {
            seq![j as usize]
        },
    decreases n,
{
    if n > 0 {
        lemma_skip_one_prefix(frames, expected, first, j, n - 1);
        if n - 1 == j {
            assert(Seq::<usize>::empty().push(j as usize) =~= seq![j as usize]);
        }
    }
}

} // verus!
