//! The conversion core: source-format validation, locating the tag stream,
//! scanning it into tag-block descriptors, and deriving playback metadata.

use vstd::prelude::*;

use crate::bytes::{
    as_i32, be32_at, byte_or_zero, le32_at, le32_or_zero, le64_at, read_be32, read_byte_or_zero,
    read_le32, read_le32_or_zero, read_le64,
};
use crate::error::{Error, ErrorKind};
use crate::flv_format::{creator_bytes, make_creator_bytes, KeyFrame, MetaData};

verus! {

/// The three media tag kinds the container carries.
#[derive(Clone, Copy, Debug, PartialEq, Eq, Structural)]
pub enum FlvTagType {
    Audio,
    Video,
    Script,
}

impl FlvTagType {
    /// The tag kind a header type byte denotes, if any.
    pub open spec fn spec_from_byte(val: u8) -> Option<FlvTagType> {
        if val == 0x08 {
            Some(FlvTagType::Audio)
        } else if val == 0x09 {
            Some(FlvTagType::Video)
        } else if val == 0x12 {
            Some(FlvTagType::Script)
        } else {
            None
        }
    }

    pub fn from_byte(val: u8) -> (r: Option<Self>)
        ensures
            r == Self::spec_from_byte(val),
    {
        if val == 0x08 {
            Some(FlvTagType::Audio)
        } else if val == 0x09 {
            Some(FlvTagType::Video)
        } else if val == 0x12 {
            Some(FlvTagType::Script)
        } else {
            None
        }
    }
}

/// One tag block: its kind, the absolute offset of its 11-byte header in
/// the source, and its size (declared 24-bit payload length plus 11).
#[derive(Clone, Copy, Debug, PartialEq, Eq, Structural)]
pub struct FlvTagBlock {
    pub tag_type: FlvTagType,
    pub offset: u64,
    pub size: u64,
}

pub type FlvTagBlocks = Vec<FlvTagBlock>;

/// The failure class a stage reports, stated without the message text that
/// the executable error value carries.
#[derive(Clone, Copy, Debug, PartialEq, Eq, Structural)]
pub enum FailClass {
    OutOfData,
    BadVersion,
    BadFormat,
    NoTags,
    TooShort,
}

/// Whether the executable error `e` belongs to the failure class `c`.
pub open spec fn fail_matches(e: Error, c: FailClass) -> bool {
    match c {
        FailClass::OutOfData => *e.0 is Io,
        FailClass::BadVersion => *e.0 is IncorrectQsvVersion,
        FailClass::BadFormat => *e.0 is IncorrectQsvFormat,
        FailClass::NoTags => *e.0 is QsvTagsIsEmpty,
        FailClass::TooShort => *e.0 is MediaDurationIsTooShort,
    }
}

fn io_eof_error() -> (e: Error)
    ensures
        *e.0 is Io,
{
    Error::new(ErrorKind::Io("unexpected end of data".to_string()))
}

// ---------------------------------------------------------------------------
// Format validation
// ---------------------------------------------------------------------------

/// The fixed 10-byte signature expected at offset 0.
pub open spec fn qsv_signature() -> Seq<u8> {
    seq![0x51u8, 0x49, 0x59, 0x49, 0x20, 0x56, 0x49, 0x44, 0x45, 0x4f]
}

/// Whether the first 10 bytes (zero-padded past the end) match the signature.
pub open spec fn signature_ok(data: Seq<u8>) -> bool {
    forall|i: int| 0 <= i < 10 ==> byte_or_zero(data, i) == qsv_signature()[i]
}

/// The 4-byte little-endian version field at offset 10, zero-padded.
pub open spec fn version_of(data: Seq<u8>) -> nat {
    le32_or_zero(data, 10)
}

/// Confirms the source is the expected container family and version.
///
/// The version is checked first: a wrong version is reported even when the
/// signature does not match either.
pub fn validate_qsv_format(qsv: &[u8]) -> (r: Result<(), Error>)
    ensures
        match r {
            Ok(()) => version_of(qsv@) == 2 && signature_ok(qsv@),
            Err(e) => {
                &&& version_of(qsv@) != 2 ==> fail_matches(e, FailClass::BadVersion)
                &&& version_of(qsv@) == 2 ==> !signature_ok(qsv@) && fail_matches(
                    e,
                    FailClass::BadFormat,
                )
            },
        },
{
    let version = read_le32_or_zero(qsv, 10);
    if version != 2 {
        return Err(Error::new(ErrorKind::IncorrectQsvVersion));
    }
    let sig_ok = read_byte_or_zero(qsv, 0) == 0x51 && read_byte_or_zero(qsv, 1) == 0x49
        && read_byte_or_zero(qsv, 2) == 0x59 && read_byte_or_zero(qsv, 3) == 0x49
        && read_byte_or_zero(qsv, 4) == 0x20 && read_byte_or_zero(qsv, 5) == 0x56
        && read_byte_or_zero(qsv, 6) == 0x49 && read_byte_or_zero(qsv, 7) == 0x44
        && read_byte_or_zero(qsv, 8) == 0x45 && read_byte_or_zero(qsv, 9) == 0x4f;
    if sig_ok {
        proof {
            assert(signature_ok(qsv@)) by {
                assert(forall|i: int| 0 <= i < 10 ==> byte_or_zero(qsv@, i) == qsv_signature()[i])
                    by {
                    assert(byte_or_zero(qsv@, 0) == qsv_signature()[0]);
                    assert(byte_or_zero(qsv@, 1) == qsv_signature()[1]);
                    assert(byte_or_zero(qsv@, 2) == qsv_signature()[2]);
                    assert(byte_or_zero(qsv@, 3) == qsv_signature()[3]);
                    assert(byte_or_zero(qsv@, 4) == qsv_signature()[4]);
                    assert(byte_or_zero(qsv@, 5) == qsv_signature()[5]);
                    assert(byte_or_zero(qsv@, 6) == qsv_signature()[6]);
                    assert(byte_or_zero(qsv@, 7) == qsv_signature()[7]);
                    assert(byte_or_zero(qsv@, 8) == qsv_signature()[8]);
                    assert(byte_or_zero(qsv@, 9) == qsv_signature()[9]);
                }
            }
        }
        Ok(())
    } else {
        proof {
            assert(!signature_ok(qsv@)) by {
                if signature_ok(qsv@) {
                    assert(byte_or_zero(qsv@, 0) == qsv_signature()[0]);
                    assert(byte_or_zero(qsv@, 1) == qsv_signature()[1]);
                    assert(byte_or_zero(qsv@, 2) == qsv_signature()[2]);
                    assert(byte_or_zero(qsv@, 3) == qsv_signature()[3]);
                    assert(byte_or_zero(qsv@, 4) == qsv_signature()[4]);
                    assert(byte_or_zero(qsv@, 5) == qsv_signature()[5]);
                    assert(byte_or_zero(qsv@, 6) == qsv_signature()[6]);
                    assert(byte_or_zero(qsv@, 7) == qsv_signature()[7]);
                    assert(byte_or_zero(qsv@, 8) == qsv_signature()[8]);
                    assert(byte_or_zero(qsv@, 9) == qsv_signature()[9]);
                }
            }
        }
        Err(Error::new(ErrorKind::IncorrectQsvFormat))
    }
}

// ---------------------------------------------------------------------------
// Container navigation
// ---------------------------------------------------------------------------

/// End boundary of the embedded index region: the 8-byte little-endian
/// offset at 0x4A plus the 4-byte little-endian length at 0x52.
pub open spec fn region_end(data: Seq<u8>) -> int {
    le64_at(data, 0x4a) + le32_at(data, 0x52) as int
}

/// Reads the fixed index descriptor and locates where the tag stream
/// begins.  `Ok(None)` reports a descriptor pointing past the end of the
/// data (a truncated source).
pub fn seek_qsv_to_start(qsv: &[u8]) -> (r: Result<Option<usize>, Error>)
    ensures
        match r {
            Ok(Some(p)) => qsv@.len() >= 0x56 && region_end(qsv@) == p && p <= qsv@.len(),
            Ok(None) => qsv@.len() >= 0x56 && region_end(qsv@) > qsv@.len(),
            Err(e) => qsv@.len() < 0x56 && fail_matches(e, FailClass::OutOfData),
        },
{
    if qsv.len() < 0x56 {
        return Err(io_eof_error());
    }
    let offset = read_le64(qsv, 0x4a);
    let size = read_le32(qsv, 0x52) as u64;
    let len = qsv.len() as u64;
    if offset > len || size > len - offset {
        Ok(None)
    } else {
        Ok(Some((offset + size) as usize))
    }
}

// ---------------------------------------------------------------------------
// Metadata-skip: the self-referential length terminator
// ---------------------------------------------------------------------------

/// Result of the byte-wise scan for the metadata terminator, started with
/// `p == start` (already past the fixed 13-byte sub-header).  A sentinel
/// byte 0x09 ends the block only when the following 4-byte big-endian value
/// equals the count of bytes consumed so far; otherwise the scan resumes one
/// byte further.  `None` means the scan ran past the end of the data.
pub open spec fn meta_skip_from(data: Seq<u8>, start: int, p: int) -> Option<int>
    decreases data.len() - p,
{
    if p < 0 || p >= data.len() {
        None
    } else if data[p] == 0x09 {
        if p + 5 > data.len() {
            None
        } else if be32_at(data, p + 1) == p + 1 - start {
            Some(p + 5)
        } else {
            meta_skip_from(data, start, p + 1)
        }
    } else {
        meta_skip_from(data, start, p + 1)
    }
}

/// A found terminator lies at least 5 bytes past the scan point and within
/// the data.
pub proof fn lemma_meta_skip_bounds(data: Seq<u8>, start: int, p: int)
    ensures
        meta_skip_from(data, start, p) matches Some(q) ==> p + 5 <= q <= data.len(),
    decreases data.len() - p,
{
    if 0 <= p && p < data.len() {
        lemma_meta_skip_bounds(data, start, p + 1);
    }
}

/// Skips one opaque metadata sub-block: a fixed 13-byte sub-header, then a
/// byte-wise scan for the self-referential length terminator.  Returns the
/// position just past the terminator.
pub fn skip_qsv_metadata(qsv: &[u8], pos: usize) -> (r: Result<usize, Error>)
    requires
        pos <= qsv@.len(),
    ensures
        match r {
            Ok(q) => meta_skip_from(qsv@, pos + 13, pos + 13) == Some(q as int) && pos + 13 <= q
                <= qsv@.len(),
            Err(e) => meta_skip_from(qsv@, pos + 13, pos + 13) is None && fail_matches(
                e,
                FailClass::OutOfData,
            ),
        },
{
    if qsv.len() - pos < 13 {
        return Err(io_eof_error());
    }
    let start: usize = pos + 13;
    let mut p: usize = start;
    loop
        invariant
            start == pos + 13,
            start <= p,
            meta_skip_from(qsv@, start as int, start as int) == meta_skip_from(
                qsv@,
                start as int,
                p as int,
            ),
        decreases qsv@.len() - p,
    {
        if p >= qsv.len() {
            return Err(io_eof_error());
        }
        let b = qsv[p];
        if b == 0x09 {
            if qsv.len() - p - 1 < 4 {
                return Err(io_eof_error());
            }
            let v = read_be32(qsv, p + 1);
            let cnt: usize = p - pos - 12;
            if (v as u64) == (cnt as u64) {
                proof {
                    lemma_meta_skip_bounds(qsv@, start as int, start as int);
                }
                return Ok(p + 5);
            }
        }
        p = p + 1;
    }
}

// ---------------------------------------------------------------------------
// Tag scanning
// ---------------------------------------------------------------------------

/// Whether the 11 bytes at `p` look like a genuine tag header: a known
/// type byte, and the three reserved bytes 8..11 all zero.
pub open spec fn tag_header_at(data: Seq<u8>, p: int) -> bool
    recommends
        0 <= p,
        p + 11 <= data.len(),
{
    &&& FlvTagType::spec_from_byte(data[p]) is Some
    &&& data[p + 8] == 0
    &&& data[p + 9] == 0
    &&& data[p + 10] == 0
}

/// The declared 24-bit payload length: bytes 1..4 of the 4-byte big-endian
/// read at `p`, with the top byte masked off.
pub open spec fn tag_data_size_at(data: Seq<u8>, p: int) -> nat
    recommends
        0 <= p,
        p + 4 <= data.len(),
{
    (data[p + 1] as nat) * 0x10000 + (data[p + 2] as nat) * 0x100 + (data[p + 3] as nat)
}

/// The cursor after moving `step` bytes forward, held within the data.
pub open spec fn advanced(p: int, step: int, len: int) -> int {
    if p + step > len {
        len
    } else {
        p + step
    }
}

/// One blind tag-skip: read a 4-byte big-endian masked length at `q`, then
/// jump that length plus 11 bytes further.  `None` means fewer than 4 bytes
/// were left to read.
pub open spec fn blind_step(data: Seq<u8>, q: int) -> Option<int> {
    if q < 0 || q + 4 > data.len() {
        None
    } else {
        Some(advanced(q, 15 + tag_data_size_at(data, q) as int, data.len() as int))
    }
}

/// The ordered tag blocks the main scan loop emits from position `p`.
/// `None` means a read during resynchronization ran past the end.
pub open spec fn scan_from(data: Seq<u8>, p: int) -> Option<Seq<FlvTagBlock>>
    decreases data.len() - p,
        when 0 <= p
        via scan_from_decreases
{
    if !(p + 11 < data.len()) {
        Some(Seq::empty())
    } else if tag_header_at(data, p) {
        let size = 11 + tag_data_size_at(data, p);
        let block = FlvTagBlock {
            tag_type: FlvTagType::spec_from_byte(data[p])->Some_0,
            offset: p as u64,
            size: size as u64,
        };
        match scan_from(data, advanced(p, size as int + 4, data.len() as int)) {
            Some(rest) => Some(seq![block] + rest),
            None => None,
        }
    } else {
        match meta_skip_from(data, p + 13, p + 13) {
            None => None,
            Some(q) => match blind_step(data, q) {
                None => None,
                Some(q2) => match blind_step(data, q2) {
                    None => None,
                    Some(q3) => scan_from(data, q3),
                },
            },
        }
    }
}

#[via_fn]
proof fn scan_from_decreases(data: Seq<u8>, p: int) {
    if 0 <= p && p + 11 < data.len() && !tag_header_at(data, p) {
        lemma_meta_skip_bounds(data, p + 13, p + 13);
    }
}

/// The whole scan stage: locate the tag stream, skip the leading metadata
/// sub-block, then walk the stream.
pub open spec fn spec_tag_blocks(data: Seq<u8>) -> Result<Seq<FlvTagBlock>, FailClass> {
    if data.len() < 0x56 {
        Err(FailClass::OutOfData)
    } else if region_end(data) > data.len() {
        Err(FailClass::BadFormat)
    } else {
        match meta_skip_from(data, region_end(data) + 13, region_end(data) + 13) {
            None => Err(FailClass::OutOfData),
            Some(q) => match scan_from(data, q) {
                None => Err(FailClass::OutOfData),
                Some(blocks) => Ok(blocks),
            },
        }
    }
}

fn can_read_a_tag_header(qsv: &[u8], p: usize) -> (r: bool)
    ensures
        r == (p + 11 < qsv@.len()),
{
    if qsv.len() < 12 {
        false
    } else {
        p < qsv.len() - 11
    }
}

fn is_qsv_at_tag_start(qsv: &[u8], p: usize) -> (r: bool)
    requires
        p + 11 <= qsv@.len(),
    ensures
        r == tag_header_at(qsv@, p as int),
{
    if FlvTagType::from_byte(qsv[p]).is_some() {
        qsv[p + 8] == 0 && qsv[p + 9] == 0 && qsv[p + 10] == 0
    } else {
        false
    }
}

fn read_tag_data_size(qsv: &[u8], p: usize) -> (r: u32)
    requires
        p + 4 <= qsv@.len(),
    ensures
        r == tag_data_size_at(qsv@, p as int),
        r <= 0xFFFFFF,
{
    let n = qsv.len();
    (qsv[p + 1] as u32) * 0x10000 + (qsv[p + 2] as u32) * 0x100 + (qsv[p + 3] as u32)
}

fn move_qsv_to_next_tag(qsv: &[u8], p: usize) -> (r: Result<usize, Error>)
    requires
        p <= qsv@.len(),
    ensures
        match r {
            Ok(q) => blind_step(qsv@, p as int) == Some(q as int) && p < q <= qsv@.len(),
            Err(e) => blind_step(qsv@, p as int) is None && fail_matches(e, FailClass::OutOfData),
        },
{
    if qsv.len() - p < 4 {
        return Err(io_eof_error());
    }
    let ds = read_tag_data_size(qsv, p);
    let step: usize = ds as usize + 15;
    let room = qsv.len() - p;
    if step > room {
        Ok(qsv.len())
    } else {
        Ok(p + step)
    }
}

/// Walks the tag stream and emits the ordered sequence of tag blocks,
/// resynchronizing past interleaved opaque metadata sub-blocks.
#[verifier::loop_isolation(false)]
pub fn tag_blocks_from_qsv(qsv: &[u8]) -> (r: Result<FlvTagBlocks, Error>)
    ensures
        match r {
            Ok(blocks) => spec_tag_blocks(qsv@) == Ok::<Seq<FlvTagBlock>, FailClass>(blocks@),
            Err(e) => spec_tag_blocks(qsv@) matches Err(c) && fail_matches(e, c),
        },
{
    let start = match seek_qsv_to_start(qsv) {
        Err(e) => {
            return Err(e);
        },
        Ok(None) => {
            return Err(Error::new(ErrorKind::IncorrectQsvFormat));
        },
        Ok(Some(s)) => s,
    };
    let mut p = match skip_qsv_metadata(qsv, start) {
        Err(e) => {
            return Err(e);
        },
        Ok(q) => q,
    };
    let ghost p0: int = p as int;
    let mut blocks: FlvTagBlocks = Vec::new();
    proof {
        match scan_from(qsv@, p0) {
            Some(rest) => {
                assert(blocks@ + rest =~= rest);
            },
            None => {},
        }
    }
    loop
        invariant
            p <= qsv@.len(),
            scan_from(qsv@, p0) == match scan_from(qsv@, p as int) {
                Some(rest) => Some(blocks@ + rest),
                None => None::<Seq<FlvTagBlock>>,
            },
        decreases qsv@.len() - p,
    {
        if !can_read_a_tag_header(qsv, p) {
            proof {
                assert(scan_from(qsv@, p as int) == Some(Seq::<FlvTagBlock>::empty()));
                assert(blocks@ + Seq::<FlvTagBlock>::empty() =~= blocks@);
            }
            return Ok(blocks);
        }
        if is_qsv_at_tag_start(qsv, p) {
            let ds = read_tag_data_size(qsv, p);
            let size: u64 = ds as u64 + 11;
            let block = match FlvTagType::from_byte(qsv[p]) {
                Some(tt) => FlvTagBlock { tag_type: tt, offset: p as u64, size },
                None => {
                    // A header that passed the peek always decodes again on the
                    // consuming read: the byte is unchanged, so no block is
                    // ever dropped here.
                    proof {
                        assert(false);
                    }
                    FlvTagBlock { tag_type: FlvTagType::Audio, offset: 0, size: 0 }
                },
            };
            let ghost pre = blocks@;
            blocks.push(block);
            let step: usize = ds as usize + 15;
            let room = qsv.len() - p;
            let next: usize = if step > room {
                qsv.len()
            } else {
                p + step
            };
            proof {
                assert(next as int == advanced(p as int, 11 + tag_data_size_at(qsv@, p as int) as int + 4,
                    qsv@.len() as int));
                assert(blocks@ =~= pre + seq![block]);
                match scan_from(qsv@, next as int) {
                    Some(rest) => {
                        assert(pre + (seq![block] + rest) =~= (pre + seq![block]) + rest);
                    },
                    None => {},
                }
            }
            p = next;
        } else {
            let q = match skip_qsv_metadata(qsv, p) {
                Err(e) => {
                    return Err(e);
                },
                Ok(q) => q,
            };
            let q2 = match move_qsv_to_next_tag(qsv, q) {
                Err(e) => {
                    return Err(e);
                },
                Ok(q2) => q2,
            };
            let q3 = match move_qsv_to_next_tag(qsv, q2) {
                Err(e) => {
                    return Err(e);
                },
                Ok(q3) => q3,
            };
            p = q3;
        }
    }
}

// ---------------------------------------------------------------------------
// Metadata derivation
// ---------------------------------------------------------------------------

/// The tag timestamp stored at `off + 4`: reassembled big-endian from the
/// field's bytes in the order [3, 0, 1, 2], read as a signed 32-bit value.
pub open spec fn ts_at(data: Seq<u8>, off: int) -> int
    recommends
        0 <= off,
        off + 8 <= data.len(),
{
    as_i32(
        (data[off + 7] as nat) * 0x1000000 + (data[off + 4] as nat) * 0x10000 + (data[off
            + 5] as nat) * 0x100 + (data[off + 6] as nat),
    )
}

/// The timestamp read of one tag: the tag must be at least 8 bytes and its
/// field must lie within the data.
pub open spec fn spec_ts(data: Seq<u8>, t: FlvTagBlock) -> Result<int, FailClass> {
    if t.size < 8 {
        Err(FailClass::BadFormat)
    } else if t.offset + 8 > data.len() {
        Err(FailClass::OutOfData)
    } else {
        Ok(ts_at(data, t.offset as int))
    }
}

/// The keyframe flag and codec id of a video tag: the tag must be at least
/// 12 bytes, lie within the data, and carry the video type byte.
pub open spec fn spec_parse_video(data: Seq<u8>, t: FlvTagBlock) -> Result<(bool, u8), FailClass> {
    if t.size < 12 {
        Err(FailClass::BadFormat)
    } else if t.offset + 1 > data.len() {
        Err(FailClass::OutOfData)
    } else if data[t.offset as int] != 0x09 {
        Err(FailClass::BadFormat)
    } else if t.offset + 12 > data.len() {
        Err(FailClass::OutOfData)
    } else {
        let b = data[t.offset + 11];
        Ok(((b & 0x11) == 0x11, b & 0x0F))
    }
}

/// The decoded flags byte of an audio tag: sound format, sample rate,
/// sample size, and stereo.
pub open spec fn spec_parse_audio(data: Seq<u8>, t: FlvTagBlock) -> Result<
    (u8, u8, u8, bool),
    FailClass,
> {
    if t.size < 12 {
        Err(FailClass::BadFormat)
    } else if t.offset + 1 > data.len() {
        Err(FailClass::OutOfData)
    } else if data[t.offset as int] != 0x08 {
        Err(FailClass::BadFormat)
    } else if t.offset + 12 > data.len() {
        Err(FailClass::OutOfData)
    } else {
        let b = data[t.offset + 11];
        Ok(((b >> 4), ((b >> 2) & 0x03), ((b >> 1) & 0x01), (b & 0x01) == 0x01))
    }
}

/// The codec id of the first keyframe-flagged video tag at or after `i`,
/// or 0 when no video tag up to the end carries the keyframe flag.
pub open spec fn spec_video_codec(data: Seq<u8>, tags: Seq<FlvTagBlock>, i: int) -> Result<
    u8,
    FailClass,
>
    decreases tags.len() - i,
{
    if i < 0 || i >= tags.len() {
        Ok(0)
    } else if tags[i].tag_type is Video {
        match spec_parse_video(data, tags[i]) {
            Err(c) => Err(c),
            Ok((kf, id)) => if kf {
                Ok(id)
            } else {
                spec_video_codec(data, tags, i + 1)
            },
        }
    } else {
        spec_video_codec(data, tags, i + 1)
    }
}

/// The decoded parameters of the first audio tag at or after `i`, or the
/// defaults (0, 0, 0, stereo) when there is none.
pub open spec fn spec_audio_params(data: Seq<u8>, tags: Seq<FlvTagBlock>, i: int) -> Result<
    (u8, u8, u8, bool),
    FailClass,
>
    decreases tags.len() - i,
{
    if i < 0 || i >= tags.len() {
        Ok((0, 0, 0, true))
    } else if tags[i].tag_type is Audio {
        spec_parse_audio(data, tags[i])
    } else {
        spec_audio_params(data, tags, i + 1)
    }
}

/// Collects, in scan order, up to 6 timestamps of video tags whose own
/// timestamp is at least 1 ms.
pub open spec fn spec_samples(
    data: Seq<u8>,
    tags: Seq<FlvTagBlock>,
    i: int,
    acc: Seq<int>,
) -> Result<Seq<int>, FailClass>
    decreases tags.len() - i,
{
    if i < 0 || i >= tags.len() || acc.len() >= 6 {
        Ok(acc)
    } else if tags[i].tag_type is Video {
        match spec_ts(data, tags[i]) {
            Err(c) => Err(c),
            Ok(ts) => spec_samples(
                data,
                tags,
                i + 1,
                if ts >= 1 {
                    acc.push(ts)
                } else {
                    acc
                },
            ),
        }
    } else {
        spec_samples(data, tags, i + 1, acc)
    }
}

/// The sparse keyframe index: a running byte offset is kept over every
/// tag's size plus 4; a keyframe-flagged video tag whose timestamp lies at
/// least 2000 ms past the last recorded one appends an entry holding the
/// offset before this tag and the timestamp.  A running offset that would
/// not fit in 64 bits stops the scan.
pub open spec fn spec_key_frames(
    data: Seq<u8>,
    tags: Seq<FlvTagBlock>,
    i: int,
    last: int,
    fpos: int,
    acc: Seq<KeyFrame>,
) -> Result<Seq<KeyFrame>, FailClass>
    decreases tags.len() - i,
{
    if i < 0 || i >= tags.len() {
        Ok(acc)
    } else {
        let t = tags[i];
        if t.tag_type is Video {
            match spec_parse_video(data, t) {
                Err(c) => Err(c),
                Ok((kf, id)) => if kf {
                    match spec_ts(data, t) {
                        Err(c) => Err(c),
                        Ok(ts) => if ts - last >= 2000 {
                            if fpos + t.size + 4 > u64::MAX {
                                Err(FailClass::OutOfData)
                            } else {
                                spec_key_frames(
                                    data,
                                    tags,
                                    i + 1,
                                    ts,
                                    fpos + t.size + 4,
                                    acc.push(
                                        KeyFrame { file_pos: fpos as u64, time_pos_ms: ts as i32 },
                                    ),
                                )
                            }
                        } else {
                            if fpos + t.size + 4 > u64::MAX {
                                Err(FailClass::OutOfData)
                            } else {
                                spec_key_frames(data, tags, i + 1, last, fpos + t.size + 4, acc)
                            }
                        },
                    }
                } else {
                    if fpos + t.size + 4 > u64::MAX {
                        Err(FailClass::OutOfData)
                    } else {
                        spec_key_frames(data, tags, i + 1, last, fpos + t.size + 4, acc)
                    }
                },
            }
        } else {
            if fpos + t.size + 4 > u64::MAX {
                Err(FailClass::OutOfData)
            } else {
                spec_key_frames(data, tags, i + 1, last, fpos + t.size + 4, acc)
            }
        }
    }
}

/// The failure, if any, of the whole derivation stage, in the order the
/// stages run: empty tag set, duration read, video codec scan, audio scan,
/// sample collection (fewer than 6 found fails as too short), keyframe scan.
pub open spec fn spec_derive_fail(data: Seq<u8>, tags: Seq<FlvTagBlock>) -> Option<FailClass> {
    if tags.len() == 0 {
        Some(FailClass::NoTags)
    } else if spec_ts(data, tags.last()) is Err {
        Some(spec_ts(data, tags.last())->Err_0)
    } else if spec_video_codec(data, tags, 0) is Err {
        Some(spec_video_codec(data, tags, 0)->Err_0)
    } else if spec_audio_params(data, tags, 0) is Err {
        Some(spec_audio_params(data, tags, 0)->Err_0)
    } else if spec_samples(data, tags, 0, Seq::empty()) is Err {
        Some(spec_samples(data, tags, 0, Seq::empty())->Err_0)
    } else if spec_samples(data, tags, 0, Seq::empty())->Ok_0.len() != 6 {
        Some(FailClass::TooShort)
    } else if spec_key_frames(data, tags, 0, -2000, 0, Seq::empty()) is Err {
        Some(spec_key_frames(data, tags, 0, -2000, 0, Seq::empty())->Err_0)
    } else {
        None
    }
}


/// What the deriver promises of a successfully built record: every field
/// equals what the stage spec functions compute from the tag stream.
pub open spec fn derived_ok(data: Seq<u8>, tags: Seq<FlvTagBlock>, m: MetaData) -> bool {
    &&& m.duration_ms as int == spec_ts(data, tags.last())->Ok_0
    &&& m.timestamp_last_ms == m.duration_ms
    &&& m.video_codec_id == spec_video_codec(data, tags, 0)->Ok_0
    &&& {
        let a = spec_audio_params(data, tags, 0)->Ok_0;
        m.audio_codec_id == a.0 && m.audio_sample_rate == a.1 && m.audio_sample_size == a.2
            && m.audio_stereo == a.3
    }
    &&& {
        let sm = spec_samples(data, tags, 0, Seq::empty())->Ok_0;
        m.frame_rate_denom as int == sm[5] + sm[4] + sm[3] - sm[2] - sm[1] - sm[0]
    }
    &&& m.key_frames@ == spec_key_frames(data, tags, 0, -2000, 0, Seq::empty())->Ok_0
    &&& m.timestamp_last_key_frame_ms as int == (if m.key_frames@.len() > 0 {
        m.key_frames@.last().time_pos_ms as int
    } else {
        0
    })
    &&& m.can_seek_to_end == true
    &&& m.date_creation@.len() >= 1
    &&& m.meta_data_creator@ == creator_bytes()
}

fn get_time_stamp_from_tag(qsv: &[u8], tag: &FlvTagBlock) -> (r: Result<i32, Error>)
    ensures
        match r {
            Ok(v) => spec_ts(qsv@, *tag) == Ok::<int, FailClass>(v as int),
            Err(e) => spec_ts(qsv@, *tag) matches Err(c) && fail_matches(e, c),
        },
{
    if tag.size < 8 {
        return Err(Error::new(ErrorKind::IncorrectQsvFormat));
    }
    if tag.offset >= qsv.len() as u64 || qsv.len() - (tag.offset as usize) < 8 {
        return Err(io_eof_error());
    }
    let off = tag.offset as usize;
    let u: u32 = (qsv[off + 7] as u32) * 0x1000000 + (qsv[off + 4] as u32) * 0x10000 + (qsv[off
        + 5] as u32) * 0x100 + (qsv[off + 6] as u32);
    if u >= 0x80000000 {
        let m: i64 = 0x100000000i64 - u as i64;
        Ok((-m) as i32)
    } else {
        Ok(u as i32)
    }
}

fn parse_video_tag(qsv: &[u8], tag: &FlvTagBlock) -> (r: Result<(bool, u8), Error>)
    ensures
        match r {
            Ok(v) => spec_parse_video(qsv@, *tag) == Ok::<(bool, u8), FailClass>(v),
            Err(e) => spec_parse_video(qsv@, *tag) matches Err(c) && fail_matches(e, c),
        },
{
    if tag.size < 12 {
        return Err(Error::new(ErrorKind::IncorrectQsvFormat));
    }
    if tag.offset >= qsv.len() as u64 {
        return Err(io_eof_error());
    }
    let off = tag.offset as usize;
    if qsv[off] != 0x09 {
        return Err(Error::new(ErrorKind::IncorrectQsvFormat));
    }
    if qsv.len() - off < 12 {
        return Err(io_eof_error());
    }
    let b = qsv[off + 11];
    Ok(((b & 0x11) == 0x11, b & 0x0F))
}

fn parse_audio_tag(qsv: &[u8], tag: &FlvTagBlock) -> (r: Result<(u8, u8, u8, bool), Error>)
    ensures
        match r {
            Ok(v) => spec_parse_audio(qsv@, *tag) == Ok::<(u8, u8, u8, bool), FailClass>(v),
            Err(e) => spec_parse_audio(qsv@, *tag) matches Err(c) && fail_matches(e, c),
        },
{
    if tag.size < 12 {
        return Err(Error::new(ErrorKind::IncorrectQsvFormat));
    }
    if tag.offset >= qsv.len() as u64 {
        return Err(io_eof_error());
    }
    let off = tag.offset as usize;
    if qsv[off] != 0x08 {
        return Err(Error::new(ErrorKind::IncorrectQsvFormat));
    }
    if qsv.len() - off < 12 {
        return Err(io_eof_error());
    }
    let b = qsv[off + 11];
    Ok(((b >> 4), ((b >> 2) & 0x03), ((b >> 1) & 0x01), (b & 0x01) == 0x01))
}

/// Relies on chrono's `Local::now` and `DateTime::format`: the current
/// local date rendered with the format string "%Y-%m-%d;".  The result
/// depends on the clock and the machine's time zone, so nothing is stated
/// of its bytes.
#[verifier::external_body]
fn local_date_bytes() -> (r: Vec<u8>)
    ensures
        r@.len() >= 1,
{
    chrono::Local::now().format("%Y-%m-%d;").to_string().into_bytes()
}

/// Derives the playback metadata by inspecting selected tag payload bytes.
#[verifier::loop_isolation(false)]
pub fn meta_data_from_tag_blocks(qsv: &[u8], tags: &FlvTagBlocks) -> (r: Result<MetaData, Error>)
    ensures
        match r {
            Err(e) => spec_derive_fail(qsv@, tags@) matches Some(c) && fail_matches(e, c),
            Ok(m) => spec_derive_fail(qsv@, tags@) is None && derived_ok(qsv@, tags@, m),
        },
{
    if tags.len() == 0 {
        return Err(Error::new(ErrorKind::QsvTagsIsEmpty));
    }
    let duration_ms = match get_time_stamp_from_tag(qsv, &tags[tags.len() - 1]) {
        Err(e) => {
            return Err(e);
        },
        Ok(v) => v,
    };

    let mut video_codec_id: u8 = 0;
    let mut found_v = false;
    let mut i: usize = 0;
    while i < tags.len() && !found_v
        invariant
            i <= tags@.len(),
            !found_v ==> video_codec_id == 0 && spec_video_codec(qsv@, tags@, 0) == spec_video_codec(qsv@, tags@, i as int),
            found_v ==> spec_video_codec(qsv@, tags@, 0) == Ok::<u8, FailClass>(video_codec_id),
        decreases tags@.len() - i,
    {
        let t = tags[i];
        if matches!(t.tag_type, FlvTagType::Video) {
            let (kf, id) = match parse_video_tag(qsv, &t) {
                Err(e) => {
                    return Err(e);
                },
                Ok(v) => v,
            };
            if kf {
                video_codec_id = id;
                found_v = true;
            }
        }
        i = i + 1;
    }

    let mut audio: (u8, u8, u8, bool) = (0, 0, 0, true);
    let mut found_a = false;
    let mut j: usize = 0;
    while j < tags.len() && !found_a
        invariant
            j <= tags@.len(),
            !found_a ==> audio == (0u8, 0u8, 0u8, true) && spec_audio_params(qsv@, tags@, 0) == spec_audio_params(
                qsv@,
                tags@,
                j as int,
            ),
            found_a ==> spec_audio_params(qsv@, tags@, 0) == Ok::<(u8, u8, u8, bool), FailClass>(
                audio,
            ),
        decreases tags@.len() - j,
    {
        let t = tags[j];
        if matches!(t.tag_type, FlvTagType::Audio) {
            audio = match parse_audio_tag(qsv, &t) {
                Err(e) => {
                    return Err(e);
                },
                Ok(v) => v,
            };
            found_a = true;
        }
        j = j + 1;
    }
    let mut samples: Vec<i32> = Vec::new();
    let mut k: usize = 0;
    proof {
        assert(samples@.map_values(|v: i32| v as int) =~= Seq::<int>::empty());
    }
    while k < tags.len() && samples.len() < 6
        invariant
            k <= tags@.len(),
            samples@.len() <= 6,
            spec_samples(qsv@, tags@, 0, Seq::empty()) == spec_samples(
                qsv@,
                tags@,
                k as int,
                samples@.map_values(|v: i32| v as int),
            ),
        decreases tags@.len() - k,
    {
        let t = tags[k];
        if matches!(t.tag_type, FlvTagType::Video) {
            let ts = match get_time_stamp_from_tag(qsv, &t) {
                Err(e) => {
                    return Err(e);
                },
                Ok(v) => v,
            };
            if ts >= 1 {
                let ghost pre = samples@;
                samples.push(ts);
                proof {
                    assert(samples@.map_values(|v: i32| v as int) =~= pre.map_values(
                        |v: i32| v as int,
                    ).push(ts as int));
                }
            }
        }
        k = k + 1;
    }
    if samples.len() != 6 {
        return Err(Error::new(ErrorKind::MediaDurationIsTooShort));
    }
    let frame_rate_denom: i64 = samples[5] as i64 + samples[4] as i64 + samples[3] as i64
        - samples[2] as i64 - samples[1] as i64 - samples[0] as i64;

    let mut key_frames: Vec<KeyFrame> = Vec::new();
    let mut last: i64 = -2000;
    let mut fpos: u64 = 0;
    let mut n: usize = 0;
    while n < tags.len()
        invariant
            n <= tags@.len(),
            last == -2000 || (-0x80000000 <= last < 0x80000000),
            spec_key_frames(qsv@, tags@, 0, -2000, 0, Seq::empty()) == spec_key_frames(
                qsv@,
                tags@,
                n as int,
                last as int,
                fpos as int,
                key_frames@,
            ),
        decreases tags@.len() - n,
    {
        let t = tags[n];
        if matches!(t.tag_type, FlvTagType::Video) {
            let (kf, _id) = match parse_video_tag(qsv, &t) {
                Err(e) => {
                    return Err(e);
                },
                Ok(v) => v,
            };
            if kf {
                let ts = match get_time_stamp_from_tag(qsv, &t) {
                    Err(e) => {
                        return Err(e);
                    },
                    Ok(v) => v,
                };
                if ts as i64 - last >= 2000 {
                    key_frames.push(KeyFrame { file_pos: fpos, time_pos_ms: ts });
                    last = ts as i64;
                }
            }
        }
        if t.size > u64::MAX - 4 || fpos > u64::MAX - 4 - t.size {
            return Err(io_eof_error());
        }
        fpos = fpos + t.size + 4;
        n = n + 1;
    }

    let timestamp_last_key_frame_ms: i32 = if key_frames.len() > 0 {
        key_frames[key_frames.len() - 1].time_pos_ms
    } else {
        0
    };

    let meta = MetaData {
        duration_ms,
        frame_rate_denom,
        video_codec_id,
        audio_codec_id: audio.0,
        audio_sample_rate: audio.1,
        audio_sample_size: audio.2,
        audio_stereo: audio.3,
        timestamp_last_ms: duration_ms,
        timestamp_last_key_frame_ms,
        can_seek_to_end: true,
        date_creation: local_date_bytes(),
        meta_data_creator: make_creator_bytes(),
        key_frames,
    };
    Ok(meta)
}

// ---------------------------------------------------------------------------
// The whole conversion, and the laws of its stages
// ---------------------------------------------------------------------------

/// The writer's machine-limit conditions, stated over the scan and
/// derivation results alone: what they come to for any record the deriver
/// built from these tags (the clock-dependent date plays no part).
pub open spec fn spec_derived_write_ok(data: Seq<u8>, tags: Seq<FlvTagBlock>) -> bool {
    let kfs = spec_key_frames(data, tags, 0, -2000, 0, Seq::empty())->Ok_0;
    let hs = 466 + creator_bytes().len() as int + 18 * kfs.len() as int;
    &&& forall|i: int| 0 <= i < tags.len() ==> tags[i].offset + tags[i].size + 4 <= data.len()
    &&& kfs.len() <= 0xFFFFFFFF
    &&& forall|i: int| 0 <= i < kfs.len() ==> hs + (#[trigger] kfs[i]).file_pos <= u64::MAX
    &&& hs + crate::flv_format::total_media(tags, 0) as int <= usize::MAX
}

/// For a record the deriver built, the writer's own success condition is
/// exactly [`spec_derived_write_ok`].
pub proof fn lemma_derived_write_ok(data: Seq<u8>, tags: Seq<FlvTagBlock>, m: MetaData)
    requires
        derived_ok(data, tags, m),
    ensures
        crate::flv_format::spec_write_ok(data, tags, m) == spec_derived_write_ok(data, tags),
{
    assert(creator_bytes().len() == 7);
    assert(m.meta_data_creator@.len() == 7);
}

/// Converts one source container held in memory into the destination
/// container's bytes: validate, scan, derive, write.
pub fn convert_qsv_to_flv(qsv: &[u8]) -> (r: Result<Vec<u8>, Error>)
    ensures
        match r {
            Ok(out) => {
                &&& version_of(qsv@) == 2 && signature_ok(qsv@)
                &&& spec_tag_blocks(qsv@) is Ok
                &&& spec_derive_fail(qsv@, spec_tag_blocks(qsv@)->Ok_0) is None
                &&& spec_derived_write_ok(qsv@, spec_tag_blocks(qsv@)->Ok_0)
                &&& exists|m: MetaData|
                    derived_ok(qsv@, spec_tag_blocks(qsv@)->Ok_0, m)
                        && crate::flv_format::spec_write_ok(
                        qsv@,
                        spec_tag_blocks(qsv@)->Ok_0,
                        m,
                    ) && out@ == crate::flv_format::spec_flv_bytes(
                        qsv@,
                        spec_tag_blocks(qsv@)->Ok_0,
                        m,
                    )
            },
            Err(e) => {
                ||| version_of(qsv@) != 2 && fail_matches(e, FailClass::BadVersion)
                ||| version_of(qsv@) == 2 && !signature_ok(qsv@) && fail_matches(
                    e,
                    FailClass::BadFormat,
                )
                ||| version_of(qsv@) == 2 && signature_ok(qsv@) && (spec_tag_blocks(
                    qsv@,
                ) matches Err(c) && fail_matches(e, c))
                ||| version_of(qsv@) == 2 && signature_ok(qsv@) && spec_tag_blocks(qsv@) is Ok && (
                spec_derive_fail(qsv@, spec_tag_blocks(qsv@)->Ok_0) matches Some(c)
                    && fail_matches(e, c))
                ||| version_of(qsv@) == 2 && signature_ok(qsv@) && spec_tag_blocks(qsv@) is Ok
                    && spec_derive_fail(qsv@, spec_tag_blocks(qsv@)->Ok_0) is None
                    && !spec_derived_write_ok(qsv@, spec_tag_blocks(qsv@)->Ok_0)
                    && fail_matches(e, FailClass::OutOfData)
            },
        },
{
    validate_qsv_format(qsv)?;
    let tags = tag_blocks_from_qsv(qsv)?;
    let meta = meta_data_from_tag_blocks(qsv, &tags)?;
    let out = match crate::flv_format::write_from_qsv_to_flv(qsv, &tags, &meta) {
        Err(e) => {
            proof {
                lemma_derived_write_ok(qsv@, tags@, meta);
            }
            return Err(e);
        },
        Ok(out) => out,
    };
    proof {
        lemma_derived_write_ok(qsv@, tags@, meta);
    }
    proof {
        let blocks = spec_tag_blocks(qsv@)->Ok_0;
        assert(derived_ok(qsv@, blocks, meta) && crate::flv_format::spec_write_ok(
            qsv@,
            blocks,
            meta,
        ) && out@ == crate::flv_format::spec_flv_bytes(qsv@, blocks, meta));
    }
    Ok(out)
}

/// A stream region is well formed when it is exactly a run of genuine tag
/// headers, each block recording its header position and declared size,
/// packed back to back with their 4-byte trailers up to a point where no
/// further header fits.
pub open spec fn wf_tag_stream(data: Seq<u8>, blocks: Seq<FlvTagBlock>, p: int) -> bool
    decreases blocks.len(),
{
    if blocks.len() == 0 {
        !(p + 11 < data.len())
    } else {
        let b = blocks[0];
        &&& b.offset == p
        &&& p + 11 < data.len()
        &&& tag_header_at(data, p)
        &&& b.tag_type == FlvTagType::spec_from_byte(data[p])->Some_0
        &&& b.size == 11 + tag_data_size_at(data, p)
        &&& p + b.size + 4 <= data.len()
        &&& wf_tag_stream(data, blocks.drop_first(), p + b.size + 4)
    }
}

/// Scanning a well-formed run of tag headers yields exactly those blocks,
/// in order, with their offsets and sizes.
pub proof fn lemma_scan_well_formed(data: Seq<u8>, blocks: Seq<FlvTagBlock>, p: int)
    requires
        0 <= p <= data.len(),
        wf_tag_stream(data, blocks, p),
    ensures
        scan_from(data, p) == Some(blocks),
    decreases blocks.len(),
{
    if blocks.len() == 0 {
        assert(scan_from(data, p) == Some(Seq::<FlvTagBlock>::empty()));
        assert(blocks =~= Seq::<FlvTagBlock>::empty());
    } else {
        let b = blocks[0];
        lemma_scan_well_formed(data, blocks.drop_first(), p + b.size + 4);
        assert(advanced(p, b.size as int + 4, data.len() as int) == p + b.size + 4);
        assert(seq![b] + blocks.drop_first() =~= blocks);
    }
}

/// Keyframes recorded by the index scan are spaced at least 2000 ms apart,
/// and so strictly increase in time.
pub proof fn lemma_key_frames_spacing(
    data: Seq<u8>,
    tags: Seq<FlvTagBlock>,
    i: int,
    last: int,
    fpos: int,
    acc: Seq<KeyFrame>,
)
    requires
        forall|k: int|
            0 <= k < acc.len() - 1 ==> (#[trigger] acc[k]).time_pos_ms + 2000 <= acc[k
                + 1].time_pos_ms,
        acc.len() > 0 ==> last == acc.last().time_pos_ms,
    ensures
        spec_key_frames(data, tags, i, last, fpos, acc) matches Ok(kfs) ==> forall|k: int|
            0 <= k < kfs.len() - 1 ==> (#[trigger] kfs[k]).time_pos_ms + 2000 <= kfs[
                k + 1].time_pos_ms,
    decreases tags.len() - i,
{
    if i < 0 || i >= tags.len() {
    } else {
        let t = tags[i];
        let next = fpos + t.size + 4;
        if t.tag_type is Video {
            match spec_parse_video(data, t) {
                Err(c) => {},
                Ok((kf, id)) => {
                    if kf {
                        match spec_ts(data, t) {
                            Err(c) => {},
                            Ok(ts) => {
                                if ts - last >= 2000 {
                                    if next <= u64::MAX {
                                        let acc2 = acc.push(
                                            KeyFrame {
                                                file_pos: fpos as u64,
                                                time_pos_ms: ts as i32,
                                            },
                                        );
                                        assert(forall|k: int|
                                            0 <= k < acc2.len() - 1 ==> (#[trigger] acc2[k]).time_pos_ms
                                                + 2000 <= acc2[k + 1].time_pos_ms);
                                        lemma_key_frames_spacing(data, tags, i + 1, ts, next, acc2);
                                    }
                                } else {
                                    if next <= u64::MAX {
                                        lemma_key_frames_spacing(data, tags, i + 1, last, next, acc);
                                    }
                                }
                            },
                        }
                    } else {
                        if next <= u64::MAX {
                            lemma_key_frames_spacing(data, tags, i + 1, last, next, acc);
                        }
                    }
                },
            }
        } else {
            if next <= u64::MAX {
                lemma_key_frames_spacing(data, tags, i + 1, last, next, acc);
            }
        }
    }
}

/// The whole sparse keyframe index keeps its entries at least 2000 ms
/// apart in time, so their times strictly increase.
pub proof fn lemma_key_frame_index_spacing(data: Seq<u8>, tags: Seq<FlvTagBlock>)
    ensures
        spec_key_frames(data, tags, 0, -2000, 0, Seq::empty()) matches Ok(kfs) ==> forall|k: int|
            0 <= k < kfs.len() - 1 ==> (#[trigger] kfs[k]).time_pos_ms + 2000 <= kfs[
                k + 1].time_pos_ms,
{
    lemma_key_frames_spacing(data, tags, 0, -2000, 0, Seq::empty());
}

} // verus!
