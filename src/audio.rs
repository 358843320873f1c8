use crate::encode::clamp_i64;
use crate::frames::InputAudioFrame;
use vstd::arithmetic::div_mod::lemma_fundamental_div_mod_converse;
use vstd::prelude::*;

verus! {

/// The 16-bit sample whose little-endian bytes are `lo`, `hi`.
pub open spec fn le_i16(lo: u8, hi: u8) -> i16 {
    let v = hi as int * 256 + lo as int;
    (if v >= 32768 {
        v - 65536
    } else {
        v
    }) as i16
}

/// The samples that little-endian 16-bit PCM bytes hold; an odd last byte is ignored.
pub open spec fn pcm_samples(b: Seq<u8>) -> Seq<i16> {
    Seq::new(b.len() / 2, |i: int| le_i16(b[2 * i], b[2 * i + 1]))
}

/// All samples of the chunks, one chunk after the other.
pub open spec fn stream_samples(chunks: Seq<InputAudioFrame>) -> Seq<i16>
    decreases chunks.len(),
{
    if chunks.len() == 0 {
        Seq::empty()
    } else {
        stream_samples(chunks.drop_last()) + pcm_samples(chunks.last().data@)
    }
}

/// Presentation time in milliseconds of the frame that starts after
/// `consumed` samples per channel at `rate` samples per second.
pub open spec fn audio_pts(consumed: int, rate: int) -> i64 {
    clamp_i64(consumed * 1000 / rate)
}

/// The planar block of `fs` samples per channel over `ch` channels that starts
/// at interleaved position `base`: channel `c` fills positions `c * fs .. (c + 1) * fs`.
pub open spec fn planar_block(s: Seq<i16>, base: int, fs: int, ch: int) -> Seq<i16> {
    Seq::new((fs * ch) as nat, |p: int| s[base + (p % fs) * ch + p / fs])
}

/// The frames cut from `total` interleaved samples hold all of them but
/// fewer than one frame's worth: `n` frames of `fs` samples per channel,
/// with `n * fs * ch <= total < (n + 1) * fs * ch`.
pub proof fn lemma_audio_coverage(total: int, fs: int, ch: int)
    requires
        total >= 0,
        fs > 0,
        ch > 0,
    ensures
        (total / (fs * ch)) * (fs * ch) <= total,
        total < (total / (fs * ch) + 1) * (fs * ch),
{
    assert(fs * ch > 0) by (nonlinear_arith)
        requires
            fs > 0,
            ch > 0,
    ;
    let b = fs * ch;
    assert((total / b) * b <= total && total < (total / b + 1) * b) by (nonlinear_arith)
        requires
            b > 0,
            total >= 0,
    ;
}

/// One audio frame to encode: its presentation time in milliseconds and its
/// samples, channel after channel.
pub struct AudioFramePlan {
    pub pts: i64,
    pub planar: Vec<i16>,
}

/// The sample held by two little-endian bytes.
pub fn sample_from_le(lo: u8, hi: u8) -> (r: i16)
    ensures
        r == le_i16(lo, hi),
{
    let v: u32 = hi as u32 * 256 + lo as u32;
    if v >= 32768 {
        (v as i32 - 65536) as i16
    } else {
        v as i16
    }
}

/// Appends the samples that `bytes` holds to `out`.
pub fn push_pcm(out: &mut Vec<i16>, bytes: &Vec<u8>)
    ensures
        final(out)@ == old(out)@ + pcm_samples(bytes@),
{
    let len = bytes.len();
    let n = len / 2;
    let mut i: usize = 0;
    while i < n
        invariant
            len == bytes@.len(),
            n == len / 2,
            i <= n,
            out@ == old(out)@ + pcm_samples(bytes@).take(i as int),
        decreases n - i,
    {
        let s = sample_from_le(bytes[2 * i], bytes[2 * i + 1]);
        proof {
            assert(pcm_samples(bytes@).take(i as int + 1) =~= pcm_samples(bytes@).take(i as int).push(s));
        }
        out.push(s);
        i = i + 1;
    }
    proof {
        assert(pcm_samples(bytes@).take(n as int) =~= pcm_samples(bytes@));
    }
}

/// The samples of all chunks, in order, as one interleaved stream.
pub fn decode_stream(chunks: &Vec<InputAudioFrame>) -> (r: Vec<i16>)
    ensures
        r@ == stream_samples(chunks@),
{
    let mut out: Vec<i16> = Vec::new();
    let mut c: usize = 0;
    while c < chunks.len()
        invariant
            c <= chunks@.len(),
            out@ == stream_samples(chunks@.take(c as int)),
        decreases chunks@.len() - c,
    {
        push_pcm(&mut out, &chunks[c].data);
        proof {
            assert(chunks@.take(c as int + 1).drop_last() =~= chunks@.take(c as int));
        }
        c = c + 1;
    }
    proof {
        assert(chunks@.take(c as int) =~= chunks@);
    }
    out
}

/// Presentation time of the frame that starts after `consumed` samples per channel.
pub fn frame_pts(consumed: usize, rate: u32) -> (r: i64)
    requires
        rate > 0,
    ensures
        r == audio_pts(consumed as int, rate as int),
{
    let ms: u128 = consumed as u128 * 1000 / rate as u128;
    if ms > i64::MAX as u128 {
        i64::MAX
    } else {
        ms as i64
    }
}

/// De-interleaves the block of `fs` samples per channel that starts at `base`.
fn planar_frame(samples: &Vec<i16>, base: usize, fs: usize, ch: usize) -> (r: Vec<i16>)
    requires
        fs > 0,
        ch > 0,
        base + fs * ch <= samples.len(),
    ensures
        r@ == planar_block(samples@, base as int, fs as int, ch as int),
{
    let mut out: Vec<i16> = Vec::new();
    let mut c: usize = 0;
    while c < ch
        invariant
            fs > 0,
            ch > 0,
            base + fs * ch <= samples.len(),
            c <= ch,
            out@.len() == c * fs,
            forall|p: int|
                0 <= p < out@.len() ==> out@[p] == samples@[base + (p % fs as int) * ch + p
                    / fs as int],
        decreases ch - c,
    {
        let mut i: usize = 0;
        while i < fs
            invariant
                fs > 0,
                ch > 0,
                base + fs * ch <= samples.len(),
                c < ch,
                i <= fs,
                out@.len() == c * fs + i,
                forall|p: int|
                    0 <= p < out@.len() ==> out@[p] == samples@[base + (p % fs as int) * ch + p
                        / fs as int],
            decreases fs - i,
        {
            proof {
                assert(i * ch + ch <= fs * ch) by (nonlinear_arith)
                    requires
                        i + 1 <= fs,
                        0 <= ch,
                ;
                lemma_fundamental_div_mod_converse(
                    (c * fs + i) as int,
                    fs as int,
                    c as int,
                    i as int,
                );
                assert(c * fs + i == fs * c + i) by (nonlinear_arith);
            }
            out.push(samples[base + i * ch + c]);
            i = i + 1;
        }
        proof {
            assert((c + 1) * fs == c * fs + fs) by (nonlinear_arith);
        }
        c = c + 1;
    }
    proof {
        assert(ch * fs == fs * ch) by (nonlinear_arith);
        assert(out@ =~= planar_block(samples@, base as int, fs as int, ch as int));
    }
    out
}

/// Cuts the interleaved stream into encoder frames of `fs` samples per
/// channel: frame `k` takes the `k`-th block of `fs * ch` samples,
/// de-interleaved, and starts at `k * fs * 1000 / rate` milliseconds. The
/// samples after the last whole block are left out.
pub fn plan_audio(samples: &Vec<i16>, fs: usize, ch: usize, rate: u32) -> (r: Vec<AudioFramePlan>)
    requires
        fs > 0,
        ch > 0,
        rate > 0,
        fs * ch <= usize::MAX,
    ensures
        r@.len() == samples@.len() as int / (fs * ch) as int,
        forall|k: int|
            0 <= k < r@.len() ==> {
                &&& (#[trigger] r@[k]).pts == audio_pts(k * fs, rate as int)
                &&& r@[k].planar@ == planar_block(samples@, k * (fs * ch), fs as int, ch as int)
            },
{
    assert(fs * ch > 0) by (nonlinear_arith)
        requires
            fs > 0,
            ch > 0,
    ;
    let block: usize = fs * ch;
    let len = samples.len();
    let n: usize = len / block;
    let mut out: Vec<AudioFramePlan> = Vec::new();
    let mut k: usize = 0;
    while k < n
        invariant
            fs > 0,
            ch > 0,
            rate > 0,
            block == fs * ch,
            block > 0,
            len == samples@.len(),
            n == len as int / block as int,
            k <= n,
            out@.len() == k,
            forall|j: int|
                0 <= j < k ==> {
                    &&& (#[trigger] out@[j]).pts == audio_pts(j * fs, rate as int)
                    &&& out@[j].planar@ == planar_block(samples@, j * block, fs as int, ch as int)
                },
        decreases n - k,
    {
        proof {
            assert(block * k + block <= len) by (nonlinear_arith)
                requires
                    k < n,
                    n == len as int / block as int,
                    block > 0,
            ;
            assert(k * fs <= k * block) by (nonlinear_arith)
                requires
                    block == fs * ch,
                    ch > 0,
            ;
            assert(k * block <= block * k) by (nonlinear_arith);
        }
        let base: usize = k * block;
        let planar = planar_frame(samples, base, fs, ch);
        let pts = frame_pts(k * fs, rate);
        out.push(AudioFramePlan { pts, planar });
        k = k + 1;
    }
    out
}

} // verus!
