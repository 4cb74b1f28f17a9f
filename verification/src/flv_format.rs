//! The destination container's metadata model and byte layout.
//!
//! Times are carried in whole milliseconds and the frame rate as the exact
//! denominator of `9000 / d`; the writer turns both into the 8-byte
//! big-endian floating encodings the destination format requires.

use vstd::prelude::*;

use crate::convert_qsv::{FlvTagBlock, FlvTagBlocks};
use crate::error::{Error, ErrorKind};
use crate::ieee754::{double_bits_of_ratio, spec_double_bits};

verus! {

/// One sparse seek-index entry: a byte offset into the destination's
/// media-data region, and the keyframe's timestamp in milliseconds.
#[derive(Clone, Copy, Debug, PartialEq, Eq, Structural)]
pub struct KeyFrame {
    pub file_pos: u64,
    pub time_pos_ms: i32,
}

/// Playback metadata derived from the tag stream, consumed by the writer.
#[derive(Clone, Debug)]
pub struct MetaData {
    /// Timestamp of the last tag, in milliseconds (the duration).
    pub duration_ms: i32,
    /// The frame rate is exactly `9000 / frame_rate_denom` frames per second.
    pub frame_rate_denom: i64,
    pub video_codec_id: u8,
    pub audio_codec_id: u8,
    pub audio_sample_rate: u8,
    pub audio_sample_size: u8,
    pub audio_stereo: bool,
    /// Equal to `duration_ms`.
    pub timestamp_last_ms: i32,
    /// Timestamp of the last indexed keyframe in milliseconds, or 0 if none.
    pub timestamp_last_key_frame_ms: i32,
    pub can_seek_to_end: bool,
    /// The creation date rendered as "%Y-%m-%d;", at most 11 bytes of which
    /// are written.
    pub date_creation: Vec<u8>,
    pub meta_data_creator: Vec<u8>,
    pub key_frames: Vec<KeyFrame>,
}

/// The fixed creator name, "qsv2flv".
pub open spec fn creator_bytes() -> Seq<u8> {
    seq![0x71u8, 0x73, 0x76, 0x32, 0x66, 0x6c, 0x76]
}

pub fn make_creator_bytes() -> (r: Vec<u8>)
    ensures
        r@ == creator_bytes(),
{
    let v: Vec<u8> = vec![0x71u8, 0x73, 0x76, 0x32, 0x66, 0x6c, 0x76];
    proof {
        assert(v@ =~= creator_bytes());
    }
    v
}

// ---------------------------------------------------------------------------
// Destination layout: field offsets
// ---------------------------------------------------------------------------

pub const POS_META_DATA_SIZE: usize = 14;
pub const POS_DURATION: usize = 53;
pub const POS_VIDEO_DATA_RATE: usize = 110;
pub const POS_FRAME_RATE: usize = 130;
pub const POS_VIDEO_CODEC_ID: usize = 153;
pub const POS_AUDIO_SAMPLE_RATE: usize = 179;
pub const POS_AUDIO_SAMPLE_SIZE: usize = 205;
pub const POS_AUDIO_STEREO: usize = 222;
pub const POS_AUDIO_CODEC_ID: usize = 238;
pub const POS_FILE_SIZE: usize = 278;
pub const POS_TIMESTAMP_LAST: usize = 302;
pub const POS_TIMESTAMP_LAST_KEY_FRAME: usize = 334;
pub const POS_CAN_SEEK_TO_END: usize = 357;
pub const POS_DATE_CREATION: usize = 375;
pub const POS_META_DATA_CREATOR: usize = 410;

// ---------------------------------------------------------------------------
// Big-endian fields
// ---------------------------------------------------------------------------

/// 2-byte big-endian encoding of `x mod 2^16`.
pub open spec fn be2(x: nat) -> Seq<u8> {
    seq![((x / 0x100) % 0x100) as u8, (x % 0x100) as u8]
}

/// 3-byte big-endian encoding of `x mod 2^24`.
pub open spec fn be3(x: nat) -> Seq<u8> {
    seq![((x / 0x10000) % 0x100) as u8, ((x / 0x100) % 0x100) as u8, (x % 0x100) as u8]
}

/// 4-byte big-endian encoding of `x mod 2^32`.
pub open spec fn be4(x: nat) -> Seq<u8> {
    seq![
        ((x / 0x1000000) % 0x100) as u8,
        ((x / 0x10000) % 0x100) as u8,
        ((x / 0x100) % 0x100) as u8,
        (x % 0x100) as u8,
    ]
}

/// 8-byte big-endian encoding of `x mod 2^64`.
pub open spec fn be8(x: nat) -> Seq<u8> {
    seq![
        ((x / 0x100000000000000) % 0x100) as u8,
        ((x / 0x1000000000000) % 0x100) as u8,
        ((x / 0x10000000000) % 0x100) as u8,
        ((x / 0x100000000) % 0x100) as u8,
        ((x / 0x1000000) % 0x100) as u8,
        ((x / 0x10000) % 0x100) as u8,
        ((x / 0x100) % 0x100) as u8,
        (x % 0x100) as u8,
    ]
}

/// The 8 bytes of the double-precision encoding of `(-1)^neg * a / b`.
pub open spec fn dbl_bytes(neg: bool, a: nat, b: nat) -> Seq<u8> {
    be8(spec_double_bits(neg, a, b) as nat)
}

/// The 8 bytes of the double-precision encoding of `ms / 1000`.
pub open spec fn dbl_ms(ms: int) -> Seq<u8> {
    dbl_bytes(ms < 0, (if ms < 0 { -ms } else { ms }) as nat, 1000)
}

pub open spec fn bool_byte(b: bool) -> Seq<u8> {
    seq![if b { 1u8 } else { 0u8 }]
}

/// The creation-date field: the first `min(11, len)` date bytes, space
/// padding filling the fixed 17-byte room.
pub open spec fn date_field(date: Seq<u8>) -> Seq<u8> {
    let k: int = if date.len() < 11 { date.len() as int } else { 11 };
    date.subrange(0, k) + Seq::new((17 - k) as nat, |i: int| 0x20u8)
}

/// The first 4 bytes of the double-precision encoding of the total file
/// length, over the zero tail the fixed preamble holds there.
pub open spec fn file_size_field(total: nat) -> Seq<u8> {
    be8(spec_double_bits(false, total, 1) as nat).take(4) + seq![0u8, 0, 0, 0]
}

fn push_be2(out: &mut Vec<u8>, x: u16)
    ensures
        final(out)@ == old(out)@ + be2(x as nat),
{
    out.push((x / 0x100) as u8);
    out.push((x % 0x100) as u8);
    proof {
        assert(final(out)@ =~= old(out)@ + be2(x as nat));
    }
}

fn push_be3(out: &mut Vec<u8>, x: u64)
    ensures
        final(out)@ == old(out)@ + be3(x as nat),
{
    out.push(((x / 0x10000) % 0x100) as u8);
    out.push(((x / 0x100) % 0x100) as u8);
    out.push((x % 0x100) as u8);
    proof {
        assert(final(out)@ =~= old(out)@ + be3(x as nat));
    }
}

fn push_be4(out: &mut Vec<u8>, x: u64)
    ensures
        final(out)@ == old(out)@ + be4(x as nat),
{
    out.push(((x / 0x1000000) % 0x100) as u8);
    out.push(((x / 0x10000) % 0x100) as u8);
    out.push(((x / 0x100) % 0x100) as u8);
    out.push((x % 0x100) as u8);
    proof {
        assert(final(out)@ =~= old(out)@ + be4(x as nat));
    }
}

fn push_be8(out: &mut Vec<u8>, x: u64)
    ensures
        final(out)@ == old(out)@ + be8(x as nat),
{
    out.push(((x / 0x100000000000000) % 0x100) as u8);
    out.push(((x / 0x1000000000000) % 0x100) as u8);
    out.push(((x / 0x10000000000) % 0x100) as u8);
    out.push(((x / 0x100000000) % 0x100) as u8);
    out.push(((x / 0x1000000) % 0x100) as u8);
    out.push(((x / 0x10000) % 0x100) as u8);
    out.push(((x / 0x100) % 0x100) as u8);
    out.push((x % 0x100) as u8);
    proof {
        assert(final(out)@ =~= old(out)@ + be8(x as nat));
    }
}

fn push_dbl(out: &mut Vec<u8>, neg: bool, num: u64, den: u64)
    ensures
        final(out)@ == old(out)@ + dbl_bytes(neg, num as nat, den as nat),
{
    let bits = double_bits_of_ratio(neg, num, den);
    push_be8(out, bits);
}

fn push_dbl_ms(out: &mut Vec<u8>, ms: i32)
    ensures
        final(out)@ == old(out)@ + dbl_ms(ms as int),
{
    let neg = ms < 0;
    let mag: u64 = if ms < 0 {
        (-(ms as i64)) as u64
    } else {
        ms as u64
    };
    push_dbl(out, neg, mag, 1000);
}

fn push_file_size_field(out: &mut Vec<u8>, total: u64)
    ensures
        final(out)@ == old(out)@ + file_size_field(total as nat),
{
    let bits = double_bits_of_ratio(false, total, 1);
    out.push(((bits / 0x100000000000000) % 0x100) as u8);
    out.push(((bits / 0x1000000000000) % 0x100) as u8);
    out.push(((bits / 0x10000000000) % 0x100) as u8);
    out.push(((bits / 0x100000000) % 0x100) as u8);
    out.push(0);
    out.push(0);
    out.push(0);
    out.push(0);
    proof {
        assert(final(out)@ =~= old(out)@ + file_size_field(total as nat));
    }
}

fn push_vec(out: &mut Vec<u8>, v: &Vec<u8>)
    ensures
        final(out)@ == old(out)@ + v@,
{
    let mut i: usize = 0;
    while i < v.len()
        invariant
            i <= v@.len(),
            out@ == old(out)@ + v@.subrange(0, i as int),
        decreases v@.len() - i,
    {
        let ghost pre = out@;
        out.push(v[i]);
        proof {
            assert(pre.push(v@[i as int]) =~= old(out)@ + v@.subrange(0, i + 1));
        }
        i = i + 1;
    }
    proof {
        assert(v@.subrange(0, v@.len() as int) =~= v@);
    }
}

fn push_date_field(out: &mut Vec<u8>, date: &Vec<u8>)
    ensures
        final(out)@ == old(out)@ + date_field(date@),
{
    let k: usize = if date.len() < 11 {
        date.len()
    } else {
        11
    };
    let mut i: usize = 0;
    while i < k
        invariant
            i <= k <= date@.len() || (k == 11 && i <= k),
            k == (if date@.len() < 11 { date@.len() as int } else { 11 }),
            out@ == old(out)@ + date@.subrange(0, i as int),
        decreases k - i,
    {
        let ghost pre = out@;
        out.push(date[i]);
        proof {
            assert(pre.push(date@[i as int]) =~= old(out)@ + date@.subrange(0, i + 1));
        }
        i = i + 1;
    }
    let mut p: usize = 0;
    while p < 17 - k
        invariant
            k == (if date@.len() < 11 { date@.len() as int } else { 11 }),
            p <= 17 - k,
            out@ == old(out)@ + date@.subrange(0, k as int) + Seq::new(
                p as nat,
                |j: int| 0x20u8,
            ),
        decreases 17 - k - p,
    {
        let ghost pre = out@;
        out.push(0x20);
        proof {
            assert(pre.push(0x20u8) =~= old(out)@ + date@.subrange(0, k as int) + Seq::new(
                (p + 1) as nat,
                |j: int| 0x20u8,
            ));
        }
        p = p + 1;
    }
    proof {
        assert(old(out)@ + date@.subrange(0, k as int) + Seq::new(
            (17 - k) as nat,
            |j: int| 0x20u8,
        ) =~= old(out)@ + date_field(date@));
    }
}

pub open spec fn run_file_head() -> Seq<u8> {
    seq![0x46u8, 0x4c, 0x56, 0x01, 0x05, 0x00, 0x00, 0x00, 0x09, 0x00, 0x00, 0x00, 0x00, 0x12]
}

fn push_run_file_head(out: &mut Vec<u8>)
    ensures
        final(out)@ == old(out)@ + run_file_head(),
{
    let mut v: Vec<u8> = vec![0x46u8, 0x4c, 0x56, 0x01, 0x05, 0x00, 0x00, 0x00, 0x09, 0x00, 0x00, 0x00, 0x00, 0x12];
    proof {
        assert(v@ =~= run_file_head());
    }
    out.append(&mut v);
}

pub open spec fn run_to_duration() -> Seq<u8> {
    seq![0x00u8, 0x00, 0x00, 0x00, 0x00, 0x00, 0x00, 0x02, 0x00, 0x0a, 0x6f, 0x6e, 0x4d, 0x65, 0x74, 0x61, 0x44, 0x61, 0x74, 0x61, 0x08, 0x00, 0x00, 0x00, 0x12, 0x00, 0x08, 0x64, 0x75, 0x72, 0x61, 0x74, 0x69, 0x6f, 0x6e, 0x00]
}

fn push_run_to_duration(out: &mut Vec<u8>)
    ensures
        final(out)@ == old(out)@ + run_to_duration(),
{
    let mut v: Vec<u8> = vec![0x00u8, 0x00, 0x00, 0x00, 0x00, 0x00, 0x00, 0x02, 0x00, 0x0a, 0x6f, 0x6e, 0x4d, 0x65, 0x74, 0x61, 0x44, 0x61, 0x74, 0x61, 0x08, 0x00, 0x00, 0x00, 0x12, 0x00, 0x08, 0x64, 0x75, 0x72, 0x61, 0x74, 0x69, 0x6f, 0x6e, 0x00];
    proof {
        assert(v@ =~= run_to_duration());
    }
    out.append(&mut v);
}

pub open spec fn run_to_videodatarate() -> Seq<u8> {
    seq![0x00u8, 0x05, 0x77, 0x69, 0x64, 0x74, 0x68, 0x00, 0x00, 0x00, 0x00, 0x00, 0x00, 0x00, 0x00, 0x00, 0x00, 0x06, 0x68, 0x65, 0x69, 0x67, 0x68, 0x74, 0x00, 0x00, 0x00, 0x00, 0x00, 0x00, 0x00, 0x00, 0x00, 0x00, 0x0d, 0x76, 0x69, 0x64, 0x65, 0x6f, 0x64, 0x61, 0x74, 0x61, 0x72, 0x61, 0x74, 0x65, 0x00]
}

fn push_run_to_videodatarate(out: &mut Vec<u8>)
    ensures
        final(out)@ == old(out)@ + run_to_videodatarate(),
{
    let mut v: Vec<u8> = vec![0x00u8, 0x05, 0x77, 0x69, 0x64, 0x74, 0x68, 0x00, 0x00, 0x00, 0x00, 0x00, 0x00, 0x00, 0x00, 0x00, 0x00, 0x06, 0x68, 0x65, 0x69, 0x67, 0x68, 0x74, 0x00, 0x00, 0x00, 0x00, 0x00, 0x00, 0x00, 0x00, 0x00, 0x00, 0x0d, 0x76, 0x69, 0x64, 0x65, 0x6f, 0x64, 0x61, 0x74, 0x61, 0x72, 0x61, 0x74, 0x65, 0x00];
    proof {
        assert(v@ =~= run_to_videodatarate());
    }
    out.append(&mut v);
}

pub open spec fn run_to_framerate() -> Seq<u8> {
    seq![0x00u8, 0x09, 0x66, 0x72, 0x61, 0x6d, 0x65, 0x72, 0x61, 0x74, 0x65, 0x00]
}

fn push_run_to_framerate(out: &mut Vec<u8>)
    ensures
        final(out)@ == old(out)@ + run_to_framerate(),
{
    let mut v: Vec<u8> = vec![0x00u8, 0x09, 0x66, 0x72, 0x61, 0x6d, 0x65, 0x72, 0x61, 0x74, 0x65, 0x00];
    proof {
        assert(v@ =~= run_to_framerate());
    }
    out.append(&mut v);
}

pub open spec fn run_to_videocodecid() -> Seq<u8> {
    seq![0x00u8, 0x0c, 0x76, 0x69, 0x64, 0x65, 0x6f, 0x63, 0x6f, 0x64, 0x65, 0x63, 0x69, 0x64, 0x00]
}

fn push_run_to_videocodecid(out: &mut Vec<u8>)
    ensures
        final(out)@ == old(out)@ + run_to_videocodecid(),
{
    let mut v: Vec<u8> = vec![0x00u8, 0x0c, 0x76, 0x69, 0x64, 0x65, 0x6f, 0x63, 0x6f, 0x64, 0x65, 0x63, 0x69, 0x64, 0x00];
    proof {
        assert(v@ =~= run_to_videocodecid());
    }
    out.append(&mut v);
}

pub open spec fn run_to_audiosamplerate() -> Seq<u8> {
    seq![0x00u8, 0x0f, 0x61, 0x75, 0x64, 0x69, 0x6f, 0x73, 0x61, 0x6d, 0x70, 0x6c, 0x65, 0x72, 0x61, 0x74, 0x65, 0x00]
}

fn push_run_to_audiosamplerate(out: &mut Vec<u8>)
    ensures
        final(out)@ == old(out)@ + run_to_audiosamplerate(),
{
    let mut v: Vec<u8> = vec![0x00u8, 0x0f, 0x61, 0x75, 0x64, 0x69, 0x6f, 0x73, 0x61, 0x6d, 0x70, 0x6c, 0x65, 0x72, 0x61, 0x74, 0x65, 0x00];
    proof {
        assert(v@ =~= run_to_audiosamplerate());
    }
    out.append(&mut v);
}

pub open spec fn run_to_audiosamplesize() -> Seq<u8> {
    seq![0x00u8, 0x0f, 0x61, 0x75, 0x64, 0x69, 0x6f, 0x73, 0x61, 0x6d, 0x70, 0x6c, 0x65, 0x73, 0x69, 0x7a, 0x65, 0x00]
}

fn push_run_to_audiosamplesize(out: &mut Vec<u8>)
    ensures
        final(out)@ == old(out)@ + run_to_audiosamplesize(),
{
    let mut v: Vec<u8> = vec![0x00u8, 0x0f, 0x61, 0x75, 0x64, 0x69, 0x6f, 0x73, 0x61, 0x6d, 0x70, 0x6c, 0x65, 0x73, 0x69, 0x7a, 0x65, 0x00];
    proof {
        assert(v@ =~= run_to_audiosamplesize());
    }
    out.append(&mut v);
}

pub open spec fn run_to_stereo() -> Seq<u8> {
    seq![0x00u8, 0x06, 0x73, 0x74, 0x65, 0x72, 0x65, 0x6f, 0x01]
}

fn push_run_to_stereo(out: &mut Vec<u8>)
    ensures
        final(out)@ == old(out)@ + run_to_stereo(),
{
    let mut v: Vec<u8> = vec![0x00u8, 0x06, 0x73, 0x74, 0x65, 0x72, 0x65, 0x6f, 0x01];
    proof {
        assert(v@ =~= run_to_stereo());
    }
    out.append(&mut v);
}

pub open spec fn run_to_audiocodecid() -> Seq<u8> {
    seq![0x00u8, 0x0c, 0x61, 0x75, 0x64, 0x69, 0x6f, 0x63, 0x6f, 0x64, 0x65, 0x63, 0x69, 0x64, 0x00]
}

fn push_run_to_audiocodecid(out: &mut Vec<u8>)
    ensures
        final(out)@ == old(out)@ + run_to_audiocodecid(),
{
    let mut v: Vec<u8> = vec![0x00u8, 0x0c, 0x61, 0x75, 0x64, 0x69, 0x6f, 0x63, 0x6f, 0x64, 0x65, 0x63, 0x69, 0x64, 0x00];
    proof {
        assert(v@ =~= run_to_audiocodecid());
    }
    out.append(&mut v);
}

pub open spec fn run_to_filesize() -> Seq<u8> {
    seq![0x00u8, 0x0a, 0x61, 0x75, 0x64, 0x69, 0x6f, 0x64, 0x65, 0x6c, 0x61, 0x79, 0x00, 0x00, 0x00, 0x00, 0x00, 0x00, 0x00, 0x00, 0x00, 0x00, 0x08, 0x66, 0x69, 0x6c, 0x65, 0x73, 0x69, 0x7a, 0x65, 0x00]
}

fn push_run_to_filesize(out: &mut Vec<u8>)
    ensures
        final(out)@ == old(out)@ + run_to_filesize(),
{
    let mut v: Vec<u8> = vec![0x00u8, 0x0a, 0x61, 0x75, 0x64, 0x69, 0x6f, 0x64, 0x65, 0x6c, 0x61, 0x79, 0x00, 0x00, 0x00, 0x00, 0x00, 0x00, 0x00, 0x00, 0x00, 0x00, 0x08, 0x66, 0x69, 0x6c, 0x65, 0x73, 0x69, 0x7a, 0x65, 0x00];
    proof {
        assert(v@ =~= run_to_filesize());
    }
    out.append(&mut v);
}

pub open spec fn run_to_lasttimestamp() -> Seq<u8> {
    seq![0x00u8, 0x0d, 0x6c, 0x61, 0x73, 0x74, 0x74, 0x69, 0x6d, 0x65, 0x73, 0x74, 0x61, 0x6d, 0x70, 0x00]
}

fn push_run_to_lasttimestamp(out: &mut Vec<u8>)
    ensures
        final(out)@ == old(out)@ + run_to_lasttimestamp(),
{
    let mut v: Vec<u8> = vec![0x00u8, 0x0d, 0x6c, 0x61, 0x73, 0x74, 0x74, 0x69, 0x6d, 0x65, 0x73, 0x74, 0x61, 0x6d, 0x70, 0x00];
    proof {
        assert(v@ =~= run_to_lasttimestamp());
    }
    out.append(&mut v);
}

pub open spec fn run_to_lastkeyframetimestamp() -> Seq<u8> {
    seq![0x00u8, 0x15, 0x6c, 0x61, 0x73, 0x74, 0x6b, 0x65, 0x79, 0x66, 0x72, 0x61, 0x6d, 0x65, 0x74, 0x69, 0x6d, 0x65, 0x73, 0x74, 0x61, 0x6d, 0x70, 0x00]
}

fn push_run_to_lastkeyframetimestamp(out: &mut Vec<u8>)
    ensures
        final(out)@ == old(out)@ + run_to_lastkeyframetimestamp(),
{
    let mut v: Vec<u8> = vec![0x00u8, 0x15, 0x6c, 0x61, 0x73, 0x74, 0x6b, 0x65, 0x79, 0x66, 0x72, 0x61, 0x6d, 0x65, 0x74, 0x69, 0x6d, 0x65, 0x73, 0x74, 0x61, 0x6d, 0x70, 0x00];
    proof {
        assert(v@ =~= run_to_lastkeyframetimestamp());
    }
    out.append(&mut v);
}

pub open spec fn run_to_canseektoend() -> Seq<u8> {
    seq![0x00u8, 0x0c, 0x63, 0x61, 0x6e, 0x53, 0x65, 0x65, 0x6b, 0x54, 0x6f, 0x45, 0x6e, 0x64, 0x01]
}

fn push_run_to_canseektoend(out: &mut Vec<u8>)
    ensures
        final(out)@ == old(out)@ + run_to_canseektoend(),
{
    let mut v: Vec<u8> = vec![0x00u8, 0x0c, 0x63, 0x61, 0x6e, 0x53, 0x65, 0x65, 0x6b, 0x54, 0x6f, 0x45, 0x6e, 0x64, 0x01];
    proof {
        assert(v@ =~= run_to_canseektoend());
    }
    out.append(&mut v);
}

pub open spec fn run_to_creationdate() -> Seq<u8> {
    seq![0x00u8, 0x0c, 0x63, 0x72, 0x65, 0x61, 0x74, 0x69, 0x6f, 0x6e, 0x64, 0x61, 0x74, 0x65, 0x02, 0x00, 0x11]
}

fn push_run_to_creationdate(out: &mut Vec<u8>)
    ensures
        final(out)@ == old(out)@ + run_to_creationdate(),
{
    let mut v: Vec<u8> = vec![0x00u8, 0x0c, 0x63, 0x72, 0x65, 0x61, 0x74, 0x69, 0x6f, 0x6e, 0x64, 0x61, 0x74, 0x65, 0x02, 0x00, 0x11];
    proof {
        assert(v@ =~= run_to_creationdate());
    }
    out.append(&mut v);
}

pub open spec fn run_to_metadatacreator() -> Seq<u8> {
    seq![0x00u8, 0x0f, 0x6d, 0x65, 0x74, 0x61, 0x64, 0x61, 0x74, 0x61, 0x63, 0x72, 0x65, 0x61, 0x74, 0x6f, 0x72, 0x02]
}

fn push_run_to_metadatacreator(out: &mut Vec<u8>)
    ensures
        final(out)@ == old(out)@ + run_to_metadatacreator(),
{
    let mut v: Vec<u8> = vec![0x00u8, 0x0f, 0x6d, 0x65, 0x74, 0x61, 0x64, 0x61, 0x74, 0x61, 0x63, 0x72, 0x65, 0x61, 0x74, 0x6f, 0x72, 0x02];
    proof {
        assert(v@ =~= run_to_metadatacreator());
    }
    out.append(&mut v);
}

pub open spec fn run_keyframes_head() -> Seq<u8> {
    seq![0x00u8, 0x09, 0x6b, 0x65, 0x79, 0x66, 0x72, 0x61, 0x6d, 0x65, 0x73, 0x03, 0x00, 0x0d, 0x66, 0x69, 0x6c, 0x65, 0x70, 0x6f, 0x73, 0x69, 0x74, 0x69, 0x6f, 0x6e, 0x73, 0x0a]
}

fn push_run_keyframes_head(out: &mut Vec<u8>)
    ensures
        final(out)@ == old(out)@ + run_keyframes_head(),
{
    let mut v: Vec<u8> = vec![0x00u8, 0x09, 0x6b, 0x65, 0x79, 0x66, 0x72, 0x61, 0x6d, 0x65, 0x73, 0x03, 0x00, 0x0d, 0x66, 0x69, 0x6c, 0x65, 0x70, 0x6f, 0x73, 0x69, 0x74, 0x69, 0x6f, 0x6e, 0x73, 0x0a];
    proof {
        assert(v@ =~= run_keyframes_head());
    }
    out.append(&mut v);
}

pub open spec fn run_times_head() -> Seq<u8> {
    seq![0x00u8, 0x05, 0x74, 0x69, 0x6d, 0x65, 0x73, 0x0a]
}

fn push_run_times_head(out: &mut Vec<u8>)
    ensures
        final(out)@ == old(out)@ + run_times_head(),
{
    let mut v: Vec<u8> = vec![0x00u8, 0x05, 0x74, 0x69, 0x6d, 0x65, 0x73, 0x0a];
    proof {
        assert(v@ =~= run_times_head());
    }
    out.append(&mut v);
}

pub open spec fn run_object_end() -> Seq<u8> {
    seq![0x00u8, 0x00, 0x09, 0x00, 0x00, 0x09]
}

fn push_run_object_end(out: &mut Vec<u8>)
    ensures
        final(out)@ == old(out)@ + run_object_end(),
{
    let mut v: Vec<u8> = vec![0x00u8, 0x00, 0x09, 0x00, 0x00, 0x09];
    proof {
        assert(v@ =~= run_object_end());
    }
    out.append(&mut v);
}

// ---------------------------------------------------------------------------
// Keyframe arrays and media bytes
// ---------------------------------------------------------------------------

/// The keyframe file-position array entries from index `i` on: a type
/// marker byte, then the double-precision `header size + file_pos`.
pub open spec fn kf_pos_entries(kfs: Seq<KeyFrame>, hs: nat, i: int) -> Seq<u8>
    decreases kfs.len() - i,
{
    if i < 0 || i >= kfs.len() {
        Seq::empty()
    } else {
        (seq![0u8] + dbl_bytes(false, (hs + kfs[i].file_pos) as nat, 1)) + kf_pos_entries(
            kfs,
            hs,
            i + 1,
        )
    }
}

/// The keyframe time-position array entries from index `i` on.
pub open spec fn kf_time_entries(kfs: Seq<KeyFrame>, i: int) -> Seq<u8>
    decreases kfs.len() - i,
{
    if i < 0 || i >= kfs.len() {
        Seq::empty()
    } else {
        (seq![0u8] + dbl_ms(kfs[i].time_pos_ms as int)) + kf_time_entries(kfs, i + 1)
    }
}

/// The verbatim media bytes: for each tag from `i` on, its `size + 4`
/// source bytes starting at its recorded offset.
pub open spec fn media_from(data: Seq<u8>, tags: Seq<FlvTagBlock>, i: int) -> Seq<u8>
    decreases tags.len() - i,
{
    if i < 0 || i >= tags.len() {
        Seq::empty()
    } else {
        data.subrange(tags[i].offset as int, tags[i].offset + tags[i].size + 4) + media_from(
            data,
            tags,
            i + 1,
        )
    }
}

/// Total length of the media region: the sum over every tag of its size
/// plus 4.
pub open spec fn total_media(tags: Seq<FlvTagBlock>, i: int) -> nat
    decreases tags.len() - i,
{
    if i < 0 || i >= tags.len() {
        0
    } else {
        (tags[i].size + 4 + total_media(tags, i + 1)) as nat
    }
}

/// Total size of everything written before the media region.
pub open spec fn spec_header_size(m: MetaData) -> int {
    466 + m.meta_data_creator@.len() as int + 18 * m.key_frames@.len() as int
}

/// The value backpatched as the metadata object's declared size.
pub open spec fn spec_data_size(m: MetaData) -> int {
    438 + m.meta_data_creator@.len() as int + 18 * m.key_frames@.len() as int
}

/// The machine-limit conditions under which the writer succeeds: every
/// tag's bytes lie within the source, and every computed width fits its
/// field or register.
pub open spec fn spec_write_ok(data: Seq<u8>, tags: Seq<FlvTagBlock>, m: MetaData) -> bool {
    &&& forall|i: int| 0 <= i < tags.len() ==> tags[i].offset + tags[i].size + 4 <= data.len()
    &&& m.meta_data_creator@.len() <= 0xFFFF
    &&& m.key_frames@.len() <= 0xFFFFFFFF
    &&& forall|i: int|
        0 <= i < m.key_frames@.len() ==> spec_header_size(m) + m.key_frames@[i].file_pos
            <= u64::MAX
    &&& spec_header_size(m) + total_media(tags, 0) <= usize::MAX
}

/// Everything written before the media region, in order: the fixed
/// preamble with every scalar field already in place, the keyframe
/// arrays, and the backpointer.
#[verifier::opaque]
pub open spec fn spec_scalar_bytes(m: MetaData, total: nat) -> Seq<u8> {
    run_file_head() + be3(spec_data_size(m) as nat) + run_to_duration() + dbl_ms(
        m.duration_ms as int,
    ) + run_to_videodatarate() + dbl_bytes(false, 0, 1) + run_to_framerate() + dbl_bytes(
        m.frame_rate_denom < 0,
        9000,
        (if m.frame_rate_denom < 0 {
            -(m.frame_rate_denom as int)
        } else {
            m.frame_rate_denom as int
        }) as nat,
    ) + run_to_videocodecid() + dbl_bytes(false, m.video_codec_id as nat, 1)
        + run_to_audiosamplerate() + dbl_bytes(false, m.audio_sample_rate as nat, 1)
        + run_to_audiosamplesize() + dbl_bytes(false, m.audio_sample_size as nat, 1)
        + run_to_stereo() + bool_byte(m.audio_stereo) + run_to_audiocodecid() + dbl_bytes(
        false,
        m.audio_codec_id as nat,
        1,
    ) + run_to_filesize() + file_size_field(total) + run_to_lasttimestamp() + dbl_ms(
        m.timestamp_last_ms as int,
    ) + run_to_lastkeyframetimestamp() + dbl_ms(m.timestamp_last_key_frame_ms as int)
        + run_to_canseektoend() + bool_byte(m.can_seek_to_end) + run_to_creationdate()
        + date_field(m.date_creation@) + run_to_metadatacreator() + be2(
        m.meta_data_creator@.len(),
    ) + m.meta_data_creator@
}

/// Everything written before the media region, in order: the fixed
/// preamble with every scalar field already in place, the keyframe
/// arrays, and the backpointer.
pub open spec fn spec_flv_header_bytes(m: MetaData, total: nat) -> Seq<u8> {
    spec_scalar_bytes(m, total) + run_keyframes_head() + be4(m.key_frames@.len())
        + kf_pos_entries(m.key_frames@, spec_header_size(m) as nat, 0) + run_times_head() + be4(
        m.key_frames@.len(),
    ) + kf_time_entries(m.key_frames@, 0) + run_object_end() + be4(
        (spec_data_size(m) + 11) as nat,
    )
}

/// The whole destination container.
pub open spec fn spec_flv_bytes(data: Seq<u8>, tags: Seq<FlvTagBlock>, m: MetaData) -> Seq<u8> {
    spec_flv_header_bytes(m, (spec_header_size(m) + total_media(tags, 0)) as nat) + media_from(
        data,
        tags,
        0,
    )
}

fn write_limit_error() -> (e: Error)
    ensures
        *e.0 is Io,
{
    Error::new(ErrorKind::Io("write ran past machine limits".to_string()))
}

#[verifier::rlimit(100)]
#[verifier::spinoff_prover]
fn build_flv_scalars(meta: &MetaData, total: u64, ds: u64) -> (r: Vec<u8>)
    requires
        ds == spec_data_size(*meta),
        meta.meta_data_creator@.len() <= 0xFFFF,
    ensures
        r@ == spec_scalar_bytes(*meta, total as nat),
{
    proof {
        reveal(spec_scalar_bytes);
    }
    let cl: u64 = meta.meta_data_creator.len() as u64;
    let mut out: Vec<u8> = Vec::new();
    push_run_file_head(&mut out);
    proof {
        assert(out@ =~= run_file_head());
    }
    push_be3(&mut out, ds);
    push_run_to_duration(&mut out);
    push_dbl_ms(&mut out, meta.duration_ms);
    push_run_to_videodatarate(&mut out);
    push_dbl(&mut out, false, 0, 1);
    push_run_to_framerate(&mut out);
    let fr_neg = meta.frame_rate_denom < 0;
    let fr_mag: u64 = if meta.frame_rate_denom < 0 {
        (-(meta.frame_rate_denom as i128)) as u64
    } else {
        meta.frame_rate_denom as u64
    };
    push_dbl(&mut out, fr_neg, 9000, fr_mag);
    push_run_to_videocodecid(&mut out);
    push_dbl(&mut out, false, meta.video_codec_id as u64, 1);
    push_run_to_audiosamplerate(&mut out);
    push_dbl(&mut out, false, meta.audio_sample_rate as u64, 1);
    push_run_to_audiosamplesize(&mut out);
    push_dbl(&mut out, false, meta.audio_sample_size as u64, 1);
    push_run_to_stereo(&mut out);
    let ghost pre_st = out@;
    out.push(if meta.audio_stereo {
        1
    } else {
        0
    });
    proof {
        assert(out@ =~= pre_st + bool_byte(meta.audio_stereo));
    }
    push_run_to_audiocodecid(&mut out);
    push_dbl(&mut out, false, meta.audio_codec_id as u64, 1);
    push_run_to_filesize(&mut out);
    push_file_size_field(&mut out, total);
    push_run_to_lasttimestamp(&mut out);
    push_dbl_ms(&mut out, meta.timestamp_last_ms);
    push_run_to_lastkeyframetimestamp(&mut out);
    push_dbl_ms(&mut out, meta.timestamp_last_key_frame_ms);
    push_run_to_canseektoend(&mut out);
    let ghost pre_cs = out@;
    out.push(if meta.can_seek_to_end {
        1
    } else {
        0
    });
    proof {
        assert(out@ =~= pre_cs + bool_byte(meta.can_seek_to_end));
    }
    push_run_to_creationdate(&mut out);
    push_date_field(&mut out, &meta.date_creation);
    push_run_to_metadatacreator(&mut out);
    push_be2(&mut out, cl as u16);
    push_vec(&mut out, &meta.meta_data_creator);
    out
}

#[verifier::loop_isolation(false)]
#[verifier::rlimit(100)]
#[verifier::spinoff_prover]
fn build_flv_header(meta: &MetaData, total: u64) -> (r: Vec<u8>)
    requires
        meta.meta_data_creator@.len() <= 0xFFFF,
        meta.key_frames@.len() <= 0xFFFFFFFF,
        forall|i: int|
            0 <= i < meta.key_frames@.len() ==> spec_header_size(*meta)
                + meta.key_frames@[i].file_pos <= u64::MAX,
    ensures
        r@ == spec_flv_header_bytes(*meta, total as nat),
{
    let cl: u64 = meta.meta_data_creator.len() as u64;
    let nk: u64 = meta.key_frames.len() as u64;
    let ds: u64 = 438 + cl + 18 * nk;
    let hs: u64 = 466 + cl + 18 * nk;
    let mut out = build_flv_scalars(meta, total, ds);
    push_run_keyframes_head(&mut out);
    push_be4(&mut out, nk);
    let ghost base_pos = out@;
    let mut ki: usize = 0;
    while ki < meta.key_frames.len()
        invariant
            ki <= meta.key_frames@.len(),
            out@ + kf_pos_entries(meta.key_frames@, hs as nat, ki as int) == base_pos
                + kf_pos_entries(meta.key_frames@, hs as nat, 0),
        decreases meta.key_frames@.len() - ki,
    {
        let kf = meta.key_frames[ki];
        let ghost pre = out@;
        out.push(0);
        push_dbl(&mut out, false, hs + kf.file_pos, 1);
        proof {
            assert(out@ =~= pre + (seq![0u8] + dbl_bytes(false, (hs + kf.file_pos) as nat, 1)));
            assert(pre + ((seq![0u8] + dbl_bytes(false, (hs + kf.file_pos) as nat, 1))
                + kf_pos_entries(meta.key_frames@, hs as nat, ki + 1)) =~= (pre + (seq![0u8]
                + dbl_bytes(false, (hs + kf.file_pos) as nat, 1))) + kf_pos_entries(
                meta.key_frames@,
                hs as nat,
                ki + 1,
            ));
        }
        ki = ki + 1;
    }
    proof {
        assert(out@ + Seq::<u8>::empty() =~= out@);
        assert(out@ == base_pos + kf_pos_entries(meta.key_frames@, hs as nat, 0));
    }
    push_run_times_head(&mut out);
    push_be4(&mut out, nk);
    let ghost base_time = out@;
    let mut ti: usize = 0;
    while ti < meta.key_frames.len()
        invariant
            ti <= meta.key_frames@.len(),
            out@ + kf_time_entries(meta.key_frames@, ti as int) == base_time + kf_time_entries(
                meta.key_frames@,
                0,
            ),
        decreases meta.key_frames@.len() - ti,
    {
        let kf = meta.key_frames[ti];
        let ghost pre = out@;
        out.push(0);
        push_dbl_ms(&mut out, kf.time_pos_ms);
        proof {
            assert(out@ =~= pre + (seq![0u8] + dbl_ms(kf.time_pos_ms as int)));
            assert(pre + ((seq![0u8] + dbl_ms(kf.time_pos_ms as int)) + kf_time_entries(
                meta.key_frames@,
                ti + 1,
            )) =~= (pre + (seq![0u8] + dbl_ms(kf.time_pos_ms as int))) + kf_time_entries(
                meta.key_frames@,
                ti + 1,
            ));
        }
        ti = ti + 1;
    }
    proof {
        assert(out@ + Seq::<u8>::empty() =~= out@);
        assert(out@ == base_time + kf_time_entries(meta.key_frames@, 0));
    }
    push_run_object_end(&mut out);
    push_be4(&mut out, ds + 11);
    out
}

/// True when every tag's `size + 4` bytes lie within the source.
fn tags_in_range(qsv: &[u8], tags: &FlvTagBlocks) -> (r: bool)
    ensures
        r == (forall|j: int|
            0 <= j < tags@.len() ==> #[trigger] tags@[j].offset + tags@[j].size + 4
                <= qsv@.len()),
{
    let n: u64 = qsv.len() as u64;
    let mut i: usize = 0;
    while i < tags.len()
        invariant
            i <= tags@.len(),
            n == qsv@.len(),
            forall|j: int|
                0 <= j < i ==> #[trigger] tags@[j].offset + tags@[j].size + 4 <= qsv@.len(),
        decreases tags@.len() - i,
    {
        let t = tags[i];
        if t.size > u64::MAX - 4 || t.offset > u64::MAX - 4 - t.size || t.offset + t.size + 4
            > n {
            proof {
                assert(tags@[i as int].offset + tags@[i as int].size + 4 > qsv@.len());
            }
            return false;
        }
        i = i + 1;
    }
    true
}

/// True when the header size plus every keyframe's file position fits a
/// 64-bit value.
fn key_frames_in_range(meta: &MetaData, hs: u64) -> (r: bool)
    requires
        hs == spec_header_size(*meta),
    ensures
        r == (forall|j: int|
            0 <= j < meta.key_frames@.len() ==> spec_header_size(*meta)
                + (#[trigger] meta.key_frames@[j]).file_pos <= u64::MAX),
{
    let mut ki: usize = 0;
    while ki < meta.key_frames.len()
        invariant
            ki <= meta.key_frames@.len(),
            hs == spec_header_size(*meta),
            forall|j: int|
                0 <= j < ki ==> spec_header_size(*meta) + (#[trigger] meta.key_frames@[j]).file_pos
                    <= u64::MAX,
        decreases meta.key_frames@.len() - ki,
    {
        if meta.key_frames[ki].file_pos > u64::MAX - hs {
            return false;
        }
        ki = ki + 1;
    }
    true
}

/// The total media length, or nothing where it leaves the address space.
fn media_total_in_range(tags: &FlvTagBlocks) -> (r: Option<u64>)
    ensures
        match r {
            Some(mt) => mt == total_media(tags@, 0) && mt <= usize::MAX,
            None => total_media(tags@, 0) > usize::MAX,
        },
{
    let mut mt: u128 = 0;
    let mut mi: usize = 0;
    while mi < tags.len()
        invariant
            mi <= tags@.len(),
            mt <= usize::MAX,
            mt + total_media(tags@, mi as int) == total_media(tags@, 0),
        decreases tags@.len() - mi,
    {
        let t = tags[mi];
        mt = mt + t.size as u128 + 4;
        if mt > usize::MAX as u128 {
            return None;
        }
        mi = mi + 1;
    }
    Some(mt as u64)
}

/// Serializes the destination container: the patched preamble, the sparse
/// keyframe index, and every tag's bytes copied verbatim from the source.
#[verifier::rlimit(100)]
#[verifier::spinoff_prover]
pub fn write_from_qsv_to_flv(qsv: &[u8], tags: &FlvTagBlocks, meta: &MetaData) -> (r: Result<
    Vec<u8>,
    Error,
>)
    ensures
        match r {
            Ok(out) => spec_write_ok(qsv@, tags@, *meta) && out@ == spec_flv_bytes(
                qsv@,
                tags@,
                *meta,
            ),
            Err(e) => !spec_write_ok(qsv@, tags@, *meta) && *e.0 is Io,
        },
{
    if !tags_in_range(qsv, tags) {
        return Err(write_limit_error());
    }
    if meta.meta_data_creator.len() > 0xFFFF {
        return Err(write_limit_error());
    }
    if meta.key_frames.len() as u64 > 0xFFFFFFFF {
        return Err(write_limit_error());
    }
    let cl: u64 = meta.meta_data_creator.len() as u64;
    let nk: u64 = meta.key_frames.len() as u64;
    let hs: u64 = 466 + cl + 18 * nk;
    if !key_frames_in_range(meta, hs) {
        return Err(write_limit_error());
    }
    let mt: u64 = match media_total_in_range(tags) {
        None => {
            return Err(write_limit_error());
        },
        Some(mt) => mt,
    };
    if hs as u128 + mt as u128 > usize::MAX as u128 {
        return Err(write_limit_error());
    }
    let total: u64 = hs + mt as u64;
    let mut out = build_flv_header(meta, total);
    proof {
        lemma_header_len(*meta, total as nat);
    }
    copy_media(&mut out, qsv, tags);
    Ok(out)
}

#[verifier::loop_isolation(false)]
#[verifier::rlimit(100)]
#[verifier::spinoff_prover]
fn copy_media(out: &mut Vec<u8>, qsv: &[u8], tags: &FlvTagBlocks)
    requires
        forall|j: int| 0 <= j < tags@.len() ==> #[trigger] tags@[j].offset + tags@[j].size + 4
            <= qsv@.len(),
        old(out)@.len() + total_media(tags@, 0) <= usize::MAX,
    ensures
        final(out)@ == old(out)@ + media_from(qsv@, tags@, 0),
{
    let n: usize = qsv.len();
    let ghost base = out@;
    let mut wi: usize = 0;
    while wi < tags.len()
        invariant
            wi <= tags@.len(),
            out@ + media_from(qsv@, tags@, wi as int) == base + media_from(qsv@, tags@, 0),
        decreases tags@.len() - wi,
    {
        let t = tags[wi];
        proof {
            assert(tags@[wi as int].offset + tags@[wi as int].size + 4 <= qsv@.len());
        }
        let off: usize = t.offset as usize;
        let cnt: usize = t.size as usize + 4;
        let ghost pre = out@;
        let mut j: usize = 0;
        while j < cnt
            invariant
                j <= cnt,
                out@ == pre + qsv@.subrange(off as int, off + j),
            decreases cnt - j,
        {
            let ghost mid = out@;
            out.push(qsv[off + j]);
            proof {
                assert(mid.push(qsv@[off + j]) =~= pre + qsv@.subrange(off as int, off + j + 1));
            }
            j = j + 1;
        }
        proof {
            assert(pre + ((qsv@.subrange(t.offset as int, t.offset + t.size + 4)) + media_from(
                qsv@,
                tags@,
                wi + 1,
            )) =~= (pre + qsv@.subrange(t.offset as int, t.offset + t.size + 4)) + media_from(
                qsv@,
                tags@,
                wi + 1,
            ));
        }
        wi = wi + 1;
    }
    proof {
        assert(out@ + Seq::<u8>::empty() =~= out@);
    }
}

// ---------------------------------------------------------------------------
// Laws of the written container
// ---------------------------------------------------------------------------

/// Length of the file-position entries: 9 bytes per keyframe.
proof fn lemma_kf_pos_entries_len(kfs: Seq<KeyFrame>, hs: nat, i: int)
    requires
        0 <= i <= kfs.len(),
    ensures
        kf_pos_entries(kfs, hs, i).len() == 9 * (kfs.len() - i),
    decreases kfs.len() - i,
{
    if i < kfs.len() {
        lemma_kf_pos_entries_len(kfs, hs, i + 1);
    }
}

/// Length of the time-position entries: 9 bytes per keyframe.
proof fn lemma_kf_time_entries_len(kfs: Seq<KeyFrame>, i: int)
    requires
        0 <= i <= kfs.len(),
    ensures
        kf_time_entries(kfs, i).len() == 9 * (kfs.len() - i),
    decreases kfs.len() - i,
{
    if i < kfs.len() {
        lemma_kf_time_entries_len(kfs, i + 1);
    }
}

/// The bytes before the media region measure exactly the header size the
/// file-position entries are based on.
#[verifier::rlimit(100)]
#[verifier::spinoff_prover]
pub proof fn lemma_header_len(m: MetaData, total: nat)
    ensures
        spec_flv_header_bytes(m, total).len() == spec_header_size(m),
{
    lemma_scalar_len(m, total);
    lemma_kf_pos_entries_len(m.key_frames@, spec_header_size(m) as nat, 0);
    lemma_kf_time_entries_len(m.key_frames@, 0);
}

/// Byte offset of tag `k` within the media region: the sum of every
/// earlier tag's size plus 4.
pub open spec fn media_pos(tags: Seq<FlvTagBlock>, k: int) -> int
    decreases k,
{
    if k <= 0 {
        0
    } else {
        media_pos(tags, k - 1) + tags[k - 1].size + 4
    }
}

/// The media region splits at any index into the bytes before and after.
proof fn lemma_media_split(tags: Seq<FlvTagBlock>, k: int)
    requires
        0 <= k <= tags.len(),
    ensures
        media_pos(tags, k) + total_media(tags, k) == total_media(tags, 0),
        media_pos(tags, k) >= 0,
    decreases k,
{
    if k > 0 {
        lemma_media_split(tags, k - 1);
        assert(total_media(tags, k - 1) == tags[k - 1].size + 4 + total_media(tags, k));
    }
}

/// Length of the media bytes from index `i` on.
proof fn lemma_media_from_len(data: Seq<u8>, tags: Seq<FlvTagBlock>, i: int)
    requires
        0 <= i <= tags.len(),
        forall|j: int| 0 <= j < tags.len() ==> tags[j].offset + tags[j].size + 4 <= data.len(),
    ensures
        media_from(data, tags, i).len() == total_media(tags, i),
    decreases tags.len() - i,
{
    if i < tags.len() {
        lemma_media_from_len(data, tags, i + 1);
    }
}

/// Later tags stand at or after earlier ones in the media region.
proof fn lemma_media_pos_mono(tags: Seq<FlvTagBlock>, i: int, k: int)
    requires
        0 <= i <= k,
    ensures
        media_pos(tags, i) <= media_pos(tags, k),
    decreases k - i,
{
    if i < k {
        lemma_media_pos_mono(tags, i, k - 1);
    }
}

/// Within the media bytes from `i` on, tag `k`'s bytes stand at its
/// relative offset, unchanged from the source.
proof fn lemma_media_at(data: Seq<u8>, tags: Seq<FlvTagBlock>, i: int, k: int)
    requires
        0 <= i <= k < tags.len(),
        forall|j: int| 0 <= j < tags.len() ==> tags[j].offset + tags[j].size + 4 <= data.len(),
    ensures
        media_from(data, tags, i).subrange(
            media_pos(tags, k) - media_pos(tags, i),
            media_pos(tags, k) - media_pos(tags, i) + tags[k].size + 4,
        ) == data.subrange(tags[k].offset as int, tags[k].offset + tags[k].size + 4),
    decreases k - i,
{
    lemma_media_split(tags, i);
    lemma_media_split(tags, k);
    lemma_media_from_len(data, tags, i);
    lemma_media_from_len(data, tags, i + 1);
    if k == i {
        assert(media_from(data, tags, i).subrange(0, tags[k].size + 4) =~= data.subrange(
            tags[k].offset as int,
            tags[k].offset + tags[k].size + 4,
        ));
    } else {
        lemma_media_at(data, tags, i + 1, k);
        lemma_media_split(tags, i + 1);
        lemma_media_pos_mono(tags, i + 1, k);
        lemma_media_from_len(data, tags, k);
        assert(total_media(tags, k) >= tags[k].size + 4);
        assert(media_pos(tags, i + 1) == media_pos(tags, i) + tags[i].size + 4);
        assert(media_from(data, tags, i).subrange(
            media_pos(tags, k) - media_pos(tags, i),
            media_pos(tags, k) - media_pos(tags, i) + tags[k].size + 4,
        ) =~= media_from(data, tags, i + 1).subrange(
            media_pos(tags, k) - media_pos(tags, i + 1),
            media_pos(tags, k) - media_pos(tags, i + 1) + tags[k].size + 4,
        ));
    }
}

/// A slice taken past a prefix of a concatenation reads from the tail.
proof fn lemma_concat_subrange(h: Seq<u8>, t: Seq<u8>, a: int, b: int)
    requires
        0 <= a <= b <= t.len(),
    ensures
        (h + t).subrange(h.len() + a, h.len() + b) == t.subrange(a, b),
{
    assert((h + t).subrange(h.len() + a, h.len() + b) =~= t.subrange(a, b));
}

/// Byte identity: in a successfully written container, every tag's
/// `size + 4` bytes stand at its rewritten position exactly as they stand
/// in the source at its recorded offset.
#[verifier::rlimit(100)]
#[verifier::spinoff_prover]
pub proof fn lemma_media_byte_identity(
    data: Seq<u8>,
    tags: Seq<FlvTagBlock>,
    m: MetaData,
    k: int,
)
    requires
        spec_write_ok(data, tags, m),
        0 <= k < tags.len(),
    ensures
        spec_flv_bytes(data, tags, m).subrange(
            spec_header_size(m) + media_pos(tags, k),
            spec_header_size(m) + media_pos(tags, k) + tags[k].size + 4,
        ) == data.subrange(tags[k].offset as int, tags[k].offset + tags[k].size + 4),
{
    let total = (spec_header_size(m) + total_media(tags, 0)) as nat;
    lemma_header_len(m, total);
    lemma_media_split(tags, k);
    lemma_media_from_len(data, tags, 0);
    lemma_media_from_len(data, tags, k);
    lemma_media_at(data, tags, 0, k);
    lemma_concat_subrange(
        spec_flv_header_bytes(m, total),
        media_from(data, tags, 0),
        media_pos(tags, k),
        media_pos(tags, k) + tags[k].size + 4,
    );
}

/// Round trip: the written container still holds, at the layout table's
/// offsets, the exact field bytes of the record it was written from --
/// the duration, frame rate, both codec ids, and the keyframe count.
pub proof fn lemma_meta_round_trip(data: Seq<u8>, tags: Seq<FlvTagBlock>, m: MetaData)
    requires
        spec_write_ok(data, tags, m),
    ensures
        spec_flv_bytes(data, tags, m).subrange(POS_DURATION as int, POS_DURATION + 8) == dbl_ms(
            m.duration_ms as int,
        ),
        spec_flv_bytes(data, tags, m).subrange(POS_FRAME_RATE as int, POS_FRAME_RATE + 8)
            == dbl_bytes(
            m.frame_rate_denom < 0,
            9000,
            (if m.frame_rate_denom < 0 {
                -(m.frame_rate_denom as int)
            } else {
                m.frame_rate_denom as int
            }) as nat,
        ),
        spec_flv_bytes(data, tags, m).subrange(POS_VIDEO_CODEC_ID as int, POS_VIDEO_CODEC_ID + 8)
            == dbl_bytes(false, m.video_codec_id as nat, 1),
        spec_flv_bytes(data, tags, m).subrange(POS_AUDIO_CODEC_ID as int, POS_AUDIO_CODEC_ID + 8)
            == dbl_bytes(false, m.audio_codec_id as nat, 1),
        spec_flv_bytes(data, tags, m).subrange(
            440 + m.meta_data_creator@.len() as int,
            444 + m.meta_data_creator@.len() as int,
        ) == be4(m.key_frames@.len()),
{
    let total = (spec_header_size(m) + total_media(tags, 0)) as nat;
    lemma_scalar_duration(m, total);
    lemma_scalar_frame_rate(m, total);
    lemma_scalar_video_codec(m, total);
    lemma_scalar_audio_codec(m, total);
    lemma_lift_scalar_subrange(data, tags, m, POS_DURATION as int, POS_DURATION + 8);
    lemma_lift_scalar_subrange(data, tags, m, POS_FRAME_RATE as int, POS_FRAME_RATE + 8);
    lemma_lift_scalar_subrange(data, tags, m, POS_VIDEO_CODEC_ID as int, POS_VIDEO_CODEC_ID + 8);
    lemma_lift_scalar_subrange(data, tags, m, POS_AUDIO_CODEC_ID as int, POS_AUDIO_CODEC_ID + 8);
    lemma_round_trip_count(data, tags, m);
}

#[verifier::rlimit(100)]
#[verifier::spinoff_prover]
proof fn lemma_scalar_len(m: MetaData, total: nat)
    ensures
        spec_scalar_bytes(m, total).len() == 412 + m.meta_data_creator@.len(),
{
    reveal(spec_scalar_bytes);
}

#[verifier::rlimit(100)]
#[verifier::spinoff_prover]
proof fn lemma_scalar_duration(m: MetaData, total: nat)
    ensures
        spec_scalar_bytes(m, total).subrange(POS_DURATION as int, POS_DURATION + 8) == dbl_ms(
            m.duration_ms as int,
        ),
{
    reveal(spec_scalar_bytes);
    assert(spec_scalar_bytes(m, total).subrange(POS_DURATION as int, POS_DURATION + 8) =~= dbl_ms(
        m.duration_ms as int,
    ));
}

#[verifier::rlimit(100)]
#[verifier::spinoff_prover]
proof fn lemma_scalar_frame_rate(m: MetaData, total: nat)
    ensures
        spec_scalar_bytes(m, total).subrange(POS_FRAME_RATE as int, POS_FRAME_RATE + 8)
            == dbl_bytes(
            m.frame_rate_denom < 0,
            9000,
            (if m.frame_rate_denom < 0 {
                -(m.frame_rate_denom as int)
            } else {
                m.frame_rate_denom as int
            }) as nat,
        ),
{
    reveal(spec_scalar_bytes);
    assert(spec_scalar_bytes(m, total).subrange(POS_FRAME_RATE as int, POS_FRAME_RATE + 8)
        =~= dbl_bytes(
        m.frame_rate_denom < 0,
        9000,
        (if m.frame_rate_denom < 0 {
            -(m.frame_rate_denom as int)
        } else {
            m.frame_rate_denom as int
        }) as nat,
    ));
}

#[verifier::rlimit(100)]
#[verifier::spinoff_prover]
proof fn lemma_scalar_video_codec(m: MetaData, total: nat)
    ensures
        spec_scalar_bytes(m, total).subrange(POS_VIDEO_CODEC_ID as int, POS_VIDEO_CODEC_ID + 8)
            == dbl_bytes(false, m.video_codec_id as nat, 1),
{
    reveal(spec_scalar_bytes);
    assert(spec_scalar_bytes(m, total).subrange(POS_VIDEO_CODEC_ID as int, POS_VIDEO_CODEC_ID + 8)
        =~= dbl_bytes(false, m.video_codec_id as nat, 1));
}

#[verifier::rlimit(100)]
#[verifier::spinoff_prover]
proof fn lemma_scalar_audio_codec(m: MetaData, total: nat)
    ensures
        spec_scalar_bytes(m, total).subrange(POS_AUDIO_CODEC_ID as int, POS_AUDIO_CODEC_ID + 8)
            == dbl_bytes(false, m.audio_codec_id as nat, 1),
{
    reveal(spec_scalar_bytes);
    assert(spec_scalar_bytes(m, total).subrange(POS_AUDIO_CODEC_ID as int, POS_AUDIO_CODEC_ID + 8)
        =~= dbl_bytes(false, m.audio_codec_id as nat, 1));
}

/// Lifts a scalar-section slice through the header and media
/// concatenations.
#[verifier::rlimit(100)]
#[verifier::spinoff_prover]
proof fn lemma_lift_scalar_subrange(data: Seq<u8>, tags: Seq<FlvTagBlock>, m: MetaData, a: int, b: int)
    requires
        spec_write_ok(data, tags, m),
        0 <= a <= b,
        b <= 412,
    ensures
        spec_flv_bytes(data, tags, m).subrange(a, b) == spec_scalar_bytes(
            m,
            (spec_header_size(m) + total_media(tags, 0)) as nat,
        ).subrange(a, b),
{
    let total = (spec_header_size(m) + total_media(tags, 0)) as nat;
    let sc = spec_scalar_bytes(m, total);
    lemma_scalar_len(m, total);
    lemma_header_len(m, total);
    assert(spec_flv_header_bytes(m, total).subrange(a, b) =~= sc.subrange(a, b));
    assert(spec_flv_bytes(data, tags, m).subrange(a, b) =~= spec_flv_header_bytes(
        m,
        total,
    ).subrange(a, b));
}

#[verifier::rlimit(100)]
#[verifier::spinoff_prover]
proof fn lemma_round_trip_count(data: Seq<u8>, tags: Seq<FlvTagBlock>, m: MetaData)
    requires
        spec_write_ok(data, tags, m),
    ensures
        spec_flv_bytes(data, tags, m).subrange(
            440 + m.meta_data_creator@.len() as int,
            444 + m.meta_data_creator@.len() as int,
        ) == be4(m.key_frames@.len()),
{
    let total = (spec_header_size(m) + total_media(tags, 0)) as nat;
    let cl = m.meta_data_creator@.len() as int;
    lemma_scalar_len(m, total);
    lemma_header_len(m, total);
    lemma_kf_pos_entries_len(m.key_frames@, spec_header_size(m) as nat, 0);
    lemma_kf_time_entries_len(m.key_frames@, 0);
    assert(spec_flv_header_bytes(m, total).subrange(440 + cl, 444 + cl) =~= be4(
        m.key_frames@.len(),
    ));
    assert(spec_flv_bytes(data, tags, m).subrange(440 + cl, 444 + cl) =~= spec_flv_header_bytes(
        m,
        total,
    ).subrange(440 + cl, 444 + cl));
}

} // verus!
