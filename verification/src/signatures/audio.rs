//! Audio made of chained frames: MPEG audio (MP3) and ADTS (AAC).
//!
//! These formats have no footer and no total size. Each frame says how long it is, so a file ends
//! where the chain of frames does.

use vstd::prelude::*;

verus! {

broadcast use vstd::slice::group_slice_axioms;

/// How many chained frames it takes to believe that a sync word opens an audio file.
///
/// The sync word is about twelve bits long, so it turns up all over binary data. Twelve frames in
/// a row mean twelve exact lengths and one constant sample rate.
pub const AUDIO_MIN_CHAIN_FRAMES: usize = 12;

/// Family of audio made of chained frames.
#[derive(Debug, Clone, Copy, PartialEq, Eq, Structural)]
pub enum AudioStream {
    /// MPEG audio (MP3): the length of a frame follows from its bit rate and sample rate.
    Mpeg,
    /// ADTS (AAC): the length of a frame is written in its header.
    Adts,
}

/// Why a walk over frames stopped.
#[derive(Debug, Clone, Copy, PartialEq, Eq, Structural)]
pub enum ChainStop {
    /// What follows is not a frame of this stream: the stream ended.
    BadData,
    /// The data ran out at a frame boundary.
    NoMoreData,
    /// The last frame declares more bytes than there are.
    Truncated,
    /// The requested number of frames was reached.
    Capped,
}

/// Result of walking a chain of audio frames.
#[derive(Debug, Clone, Copy)]
pub struct FrameChain {
    /// Valid frames chained.
    pub frames: usize,
    /// Bytes that those frames cover.
    pub bytes: usize,
    /// Why the walk stopped.
    pub stop: ChainStop,
    /// Code of the sample rate seen in the chain. A walk that ran out of data goes on in the next
    /// chunk with it, exactly as if the data had not been cut.
    pub sample_rate: Option<u8>,
}

/// A frame of this rate can belong to a stream whose rate is `expected`, where that is known.
pub open spec fn same_rate(expected: Option<u8>, rate: u8) -> bool {
    expected is None || expected == Some(rate)
}

/// MPEG version field of the second header byte: 3 is MPEG-1, 2 is MPEG-2, 0 is MPEG-2.5. The
/// reserved value 1 is read as MPEG-1.
pub open spec fn mpeg_version(second: u8) -> int {
    (second as int / 8) % 4
}

/// The version is read with the tables of MPEG-1.
pub open spec fn is_mpeg1(version: int) -> bool {
    version == 3 || version == 1
}

/// Bit rate in kbit/s of a Layer III frame, or 0 where the index is free or invalid.
pub open spec fn mpeg_bitrate_kbps(version: int, index: int) -> int {
    if is_mpeg1(version) {
        if index == 1 { 32 }
        else if index == 2 { 40 }
        else if index == 3 { 48 }
        else if index == 4 { 56 }
        else if index == 5 { 64 }
        else if index == 6 { 80 }
        else if index == 7 { 96 }
        else if index == 8 { 112 }
        else if index == 9 { 128 }
        else if index == 10 { 160 }
        else if index == 11 { 192 }
        else if index == 12 { 224 }
        else if index == 13 { 256 }
        else if index == 14 { 320 }
        else { 0 }
    } else {
        if 1 <= index <= 8 { 8 * index }
        else if 9 <= index <= 14 { 16 * index - 64 }
        else { 0 }
    }
}

/// Sample rate in hertz, or 0 where the index is reserved.
pub open spec fn mpeg_sample_rate_hz(version: int, index: int) -> int {
    let mpeg1: int = if index == 0 { 44100 } else if index == 1 { 48000 } else if index == 2 {
        32000
    } else {
        0
    };
    if is_mpeg1(version) {
        mpeg1
    } else if version == 2 {
        mpeg1 / 2
    } else {
        mpeg1 / 4
    }
}

/// Code of a sample rate: the index of the header for MPEG-1, and the index of the header with 4
/// added for MPEG-2 or 8 for MPEG-2.5, where the same index means another rate.
pub open spec fn mpeg_rate_code(version: int, index: int) -> int {
    if is_mpeg1(version) {
        index
    } else if version == 2 {
        4 + index
    } else {
        8 + index
    }
}

/// Length and code of the sample rate of the MPEG audio frame at `pos`, if its header is valid.
pub open spec fn mpeg_frame(data: Seq<u8>, pos: int) -> Option<(int, u8)> {
    if pos < 0 || pos + 3 > data.len() {
        None
    } else {
        let version = mpeg_version(data[pos + 1]);
        let kbps = mpeg_bitrate_kbps(version, data[pos + 2] as int / 16);
        let hz = mpeg_sample_rate_hz(version, (data[pos + 2] as int / 4) % 4);
        let padding = (data[pos + 2] as int / 2) % 2;
        let per_kbps: int = if is_mpeg1(version) { 144_000 } else { 72_000 };
        if data[pos] != 0xFF || data[pos + 1] < 0xE0 || kbps == 0 || hz == 0 {
            None
        } else {
            let rate = mpeg_rate_code(version, (data[pos + 2] as int / 4) % 4);
            Some(((per_kbps * kbps) / hz + padding, rate as u8))
        }
    }
}

/// Length and index of the sample rate of the ADTS frame at `pos`, if its header is valid.
pub open spec fn adts_frame(data: Seq<u8>, pos: int) -> Option<(int, u8)> {
    if pos < 0 || pos + 6 > data.len() {
        None
    } else {
        let profile = data[pos + 2] as int / 64;
        let rate_index = (data[pos + 2] as int / 4) % 16;
        let length = 2048 * (data[pos + 3] as int % 4) + 8 * data[pos + 4] + data[pos + 5] as int
            / 32;
        if data[pos] != 0xFF || data[pos + 1] < 0xF0 || profile == 3 || rate_index > 12 || length
            < 7 {
            None
        } else {
            Some((length, rate_index as u8))
        }
    }
}

impl AudioStream {
    /// Length and code of the sample rate of the frame of this family at `pos`, if there is one.
    pub open spec fn frame(self, data: Seq<u8>, pos: int) -> Option<(int, u8)> {
        match self {
            AudioStream::Mpeg => mpeg_frame(data, pos),
            AudioStream::Adts => adts_frame(data, pos),
        }
    }

    /// Bytes it takes to read a frame header of this family.
    pub open spec fn spec_header_len(self) -> int {
        match self {
            AudioStream::Mpeg => 3,
            AudioStream::Adts => 6,
        }
    }
}

/// Every frame advances, and no frame is longer than 8191 bytes.
pub proof fn law_frame_length_bounds(kind: AudioStream, data: Seq<u8>, pos: int)
    ensures
        kind.frame(data, pos) matches Some((length, rate)) ==> 7 <= length <= 8191,
{
    if kind == AudioStream::Mpeg && mpeg_frame(data, pos) is Some {
        let version = mpeg_version(data[pos + 1]);
        let kbps = mpeg_bitrate_kbps(version, data[pos + 2] as int / 16);
        let hz = mpeg_sample_rate_hz(version, (data[pos + 2] as int / 4) % 4);
        let per_kbps: int = if is_mpeg1(version) { 144_000 } else { 72_000 };
        lemma_mpeg_length(per_kbps, kbps, hz);
    }
}

proof fn lemma_mpeg_length(per_kbps: int, kbps: int, hz: int)
    by (nonlinear_arith)
    requires
        (per_kbps == 144_000 && 32 <= kbps <= 320 && 32_000 <= hz <= 48_000) || (per_kbps == 72_000
            && 8 <= kbps <= 160 && 8_000 <= hz <= 24_000),
    ensures
        24 <= (per_kbps * kbps) / hz <= 1440,
        0 <= per_kbps * kbps <= 46_080_000,
{
}

/// What a walk over frames amounts to.
pub struct ChainModel {
    pub frames: int,
    pub bytes: int,
    pub stop: ChainStop,
    pub sample_rate: Option<u8>,
}

/// The walk that has chained `frames` frames up to `pos` and goes on from there. All frames of a
/// stream share one sample rate; the bit rate may vary.
pub open spec fn chain_from(
    data: Seq<u8>,
    kind: AudioStream,
    max_frames: int,
    sample_rate: Option<u8>,
    pos: int,
    frames: int,
) -> ChainModel
    decreases data.len() - pos,
{
    let here = |stop: ChainStop, sample_rate: Option<u8>|
        ChainModel { frames: frames, bytes: pos, stop: stop, sample_rate: sample_rate };
    if frames >= max_frames {
        here(ChainStop::Capped, sample_rate)
    } else if pos + kind.spec_header_len() > data.len() {
        here(ChainStop::NoMoreData, sample_rate)
    } else {
        match kind.frame(data, pos) {
            None => here(ChainStop::BadData, sample_rate),
            Some((length, rate)) => if !same_rate(sample_rate, rate) {
                here(ChainStop::BadData, sample_rate)
            } else if pos + length > data.len() {
                here(ChainStop::Truncated, Some(rate))
            } else {
                proof {
                    law_frame_length_bounds(kind, data, pos);
                }
                chain_from(data, kind, max_frames, Some(rate), pos + length, frames + 1)
            },
        }
    }
}

/// The walk over `data` from its start.
pub open spec fn chain(
    data: Seq<u8>,
    kind: AudioStream,
    max_frames: int,
    expected: Option<u8>,
) -> ChainModel {
    chain_from(data, kind, max_frames, expected, 0, 0)
}

impl FrameChain {
    /// This chain as a value of the model.
    pub open spec fn model(self) -> ChainModel {
        ChainModel {
            frames: self.frames as int,
            bytes: self.bytes as int,
            stop: self.stop,
            sample_rate: self.sample_rate,
        }
    }
}

/// A walk over a prefix that ran out of data can be resumed where it stood: going on from there
/// over all of the data gives what one walk over all of it gives. A walk that ended for another
/// reason ends the same way when more data follows.
pub proof fn law_chain_resumes(
    data: Seq<u8>,
    kind: AudioStream,
    max_frames: int,
    sample_rate: Option<u8>,
    cut: int,
)
    requires
        0 <= cut <= data.len(),
    ensures
        ({
            let part = chain(data.take(cut), kind, max_frames, sample_rate);
            if part.stop == ChainStop::NoMoreData || part.stop == ChainStop::Truncated {
                chain(data, kind, max_frames, sample_rate) == chain_from(
                    data,
                    kind,
                    max_frames,
                    part.sample_rate,
                    part.bytes,
                    part.frames,
                )
            } else {
                chain(data, kind, max_frames, sample_rate) == part
            }
        }),
{
    lemma_prefix_walk(data, kind, max_frames, sample_rate, cut, 0, 0);
}

proof fn lemma_prefix_walk(
    data: Seq<u8>,
    kind: AudioStream,
    max_frames: int,
    sample_rate: Option<u8>,
    cut: int,
    pos: int,
    frames: int,
)
    requires
        0 <= pos <= cut <= data.len(),
    ensures
        ({
            let part = chain_from(data.take(cut), kind, max_frames, sample_rate, pos, frames);
            let whole = chain_from(data, kind, max_frames, sample_rate, pos, frames);
            if part.stop == ChainStop::NoMoreData || part.stop == ChainStop::Truncated {
                whole == chain_from(
                    data,
                    kind,
                    max_frames,
                    part.sample_rate,
                    part.bytes,
                    part.frames,
                )
            } else {
                whole == part
            }
        }),
    decreases cut - pos,
{
    let head = data.take(cut);
    if frames < max_frames && pos + kind.spec_header_len() <= cut {
        assert(kind.frame(head, pos) == kind.frame(data, pos));
        law_frame_length_bounds(kind, data, pos);
        if let Some((length, rate)) = kind.frame(data, pos) {
            if same_rate(sample_rate, rate) && pos + length <= cut {
                lemma_prefix_walk(
                    data,
                    kind,
                    max_frames,
                    Some(rate),
                    cut,
                    pos + length,
                    frames + 1,
                );
            }
        }
    }
}

/// A walk that goes on from `pos` is a fresh walk over what stands there, with the bytes and the
/// frames behind it added.
pub proof fn law_chain_of_the_rest(
    data: Seq<u8>,
    kind: AudioStream,
    max_frames: int,
    sample_rate: Option<u8>,
    pos: int,
    frames: int,
)
    requires
        0 <= pos <= data.len(),
    ensures
        ({
            let rest = chain(data.skip(pos), kind, max_frames - frames, sample_rate);
            chain_from(data, kind, max_frames, sample_rate, pos, frames) == (ChainModel {
                frames: frames + rest.frames,
                bytes: pos + rest.bytes,
                stop: rest.stop,
                sample_rate: rest.sample_rate,
            })
        }),
{
    lemma_shifted_walk(data, kind, max_frames, sample_rate, pos, frames, 0, 0);
}

proof fn lemma_shifted_walk(
    data: Seq<u8>,
    kind: AudioStream,
    max_frames: int,
    sample_rate: Option<u8>,
    start: int,
    earlier: int,
    pos: int,
    frames: int,
)
    requires
        0 <= start <= data.len(),
        0 <= pos <= data.len() - start,
    ensures
        ({
            let rest = chain_from(
                data.skip(start),
                kind,
                max_frames - earlier,
                sample_rate,
                pos,
                frames,
            );
            chain_from(data, kind, max_frames, sample_rate, start + pos, earlier + frames) == (ChainModel {
                frames: earlier + rest.frames,
                bytes: start + rest.bytes,
                stop: rest.stop,
                sample_rate: rest.sample_rate,
            })
        }),
    decreases data.len() - start - pos,
{
    let tail = data.skip(start);
    if frames < max_frames - earlier && pos + kind.spec_header_len() <= tail.len() {
        assert(kind.frame(tail, pos) == kind.frame(data, start + pos));
        law_frame_length_bounds(kind, data, start + pos);
        if let Some((length, rate)) = kind.frame(tail, pos) {
            if same_rate(sample_rate, rate) && pos + length <= tail.len() {
                lemma_shifted_walk(
                    data,
                    kind,
                    max_frames,
                    Some(rate),
                    start,
                    earlier,
                    pos + length,
                    frames + 1,
                );
            }
        }
    }
}

/// A walk covers at least seven bytes per frame, never leaves the data, and stops at the cap only
/// with exactly the frames asked for.
pub proof fn law_chain_bounds(
    data: Seq<u8>,
    kind: AudioStream,
    max_frames: int,
    sample_rate: Option<u8>,
    pos: int,
    frames: int,
)
    requires
        0 <= pos <= data.len(),
        0 <= frames,
        7 * frames <= pos,
        frames <= max_frames,
    ensures
        ({
            let walk = chain_from(data, kind, max_frames, sample_rate, pos, frames);
            &&& pos <= walk.bytes <= data.len()
            &&& frames <= walk.frames <= max_frames
            &&& 7 * walk.frames <= walk.bytes
            &&& walk.stop == ChainStop::Capped ==> walk.frames == max_frames
        }),
    decreases data.len() - pos,
{
    if frames < max_frames && pos + kind.spec_header_len() <= data.len() {
        law_frame_length_bounds(kind, data, pos);
        if let Some((length, rate)) = kind.frame(data, pos) {
            if same_rate(sample_rate, rate) && pos + length <= data.len() {
                law_chain_bounds(data, kind, max_frames, Some(rate), pos + length, frames + 1);
            }
        }
    }
}

/// A cap on the frames that the data cannot hold makes no difference.
pub proof fn law_idle_cap(
    data: Seq<u8>,
    kind: AudioStream,
    one: int,
    other: int,
    sample_rate: Option<u8>,
    pos: int,
    frames: int,
)
    requires
        0 <= pos <= data.len(),
        7 * (one - frames) > data.len() - pos,
        7 * (other - frames) > data.len() - pos,
    ensures
        chain_from(data, kind, one, sample_rate, pos, frames) == chain_from(
            data,
            kind,
            other,
            sample_rate,
            pos,
            frames,
        ),
    decreases data.len() - pos,
{
    law_frame_length_bounds(kind, data, pos);
    if pos + kind.spec_header_len() <= data.len() {
        if let Some((length, rate)) = kind.frame(data, pos) {
            if same_rate(sample_rate, rate) && pos + length <= data.len() {
                law_idle_cap(data, kind, one, other, Some(rate), pos + length, frames + 1);
            }
        }
    }
}

/// Two walks one after the other amount to this: the second one went on where the first stopped.
pub open spec fn joined(first: ChainModel, second: ChainModel) -> ChainModel {
    ChainModel {
        frames: first.frames + second.frames,
        bytes: first.bytes + second.bytes,
        stop: second.stop,
        sample_rate: second.sample_rate,
    }
}

/// A walk that ran out of data resumes exactly with the sample rate that it returned: a second walk
/// over what it left and what follows, for the frames still asked for, adds up to one walk over
/// everything.
pub proof fn law_walk_resumes_with_its_rate(
    first: Seq<u8>,
    more: Seq<u8>,
    kind: AudioStream,
    max_frames: int,
    expected: Option<u8>,
)
    ensures
        ({
            let cut = chain(first, kind, max_frames, expected);
            let rest = (first + more).skip(cut.bytes);
            cut.stop == ChainStop::NoMoreData || cut.stop == ChainStop::Truncated ==> chain(
                first + more,
                kind,
                max_frames,
                expected,
            ) == joined(cut, chain(rest, kind, max_frames - cut.frames, cut.sample_rate))
        }),
{
    let all = first + more;
    let cut = chain(first, kind, max_frames, expected);
    if cut.stop == ChainStop::NoMoreData || cut.stop == ChainStop::Truncated {
        assert(all.take(first.len() as int) =~= first);
        law_chain_resumes(all, kind, max_frames, expected, first.len() as int);
        law_chain_bounds(first, kind, max_frames, expected, 0, 0);
        law_chain_of_the_rest(all, kind, max_frames, cut.sample_rate, cut.bytes, cut.frames);
    }
}

/// The same where no walk is capped: data that fits in memory cannot hold `usize::MAX` frames, so
/// the second walk asks for as many as the first.
pub proof fn law_uncapped_walk_resumes_with_its_rate(
    first: Seq<u8>,
    more: Seq<u8>,
    kind: AudioStream,
    expected: Option<u8>,
)
    requires
        first.len() + more.len() <= usize::MAX,
    ensures
        ({
            let all = first + more;
            let cap = usize::MAX as int;
            let cut = chain(first, kind, cap, expected);
            cut.stop == ChainStop::NoMoreData || cut.stop == ChainStop::Truncated ==> chain(
                all,
                kind,
                cap,
                expected,
            ) == joined(cut, chain(all.skip(cut.bytes), kind, cap, cut.sample_rate))
        }),
{
    let all = first + more;
    let cap = usize::MAX as int;
    let cut = chain(first, kind, cap, expected);
    law_walk_resumes_with_its_rate(first, more, kind, cap, expected);
    law_chain_bounds(first, kind, cap, expected, 0, 0);
    law_idle_cap(all.skip(cut.bytes), kind, cap, cap - cut.frames, cut.sample_rate, 0, 0);
}

/// A chain long enough to be believed, or cut short only for want of data.
pub open spec fn credible(frames: int, stop: ChainStop) -> bool {
    frames >= AUDIO_MIN_CHAIN_FRAMES || stop != ChainStop::BadData
}

/// Size of the stream that a finished walk stands for, where it can be told.
pub open spec fn size_of_chain(walk: ChainModel, at_source_end: bool) -> Option<int> {
    if walk.frames >= AUDIO_MIN_CHAIN_FRAMES && (walk.stop == ChainStop::BadData || (walk.stop
        == ChainStop::NoMoreData && at_source_end)) {
        Some(walk.bytes)
    } else {
        None
    }
}

/// Size of the ID3v2 tag that opens `data`, if a well-formed one does. The size field is made of
/// four bytes of seven bits each.
pub open spec fn id3_tag(data: Seq<u8>) -> Option<int> {
    if data.len() < 10 || data[0] != 0x49 || data[1] != 0x44 || data[2] != 0x33 {
        None
    } else if data[6] >= 0x80 || data[7] >= 0x80 || data[8] >= 0x80 || data[9] >= 0x80 {
        None
    } else {
        let body = 0x20_0000 * data[6] + 0x4000 * data[7] + 0x80 * data[8] + data[9];
        let footer: int = if (data[5] as int / 16) % 2 == 1 { 10 } else { 0 };
        Some(10 + body + footer)
    }
}

/// Size of the opening ID3v2 tag, or 0 where there is none.
pub open spec fn id3_tag_or_zero(data: Seq<u8>) -> int {
    match id3_tag(data) {
        Some(size) => size,
        None => 0,
    }
}

/// Size of the MP3 that starts `data`: the opening tag and the frames behind it.
pub open spec fn mp3_end(data: Seq<u8>, at_source_end: bool) -> Option<int> {
    let tag = id3_tag_or_zero(data);
    if tag >= data.len() {
        None
    } else {
        match size_of_chain(
            chain(data.skip(tag), AudioStream::Mpeg, usize::MAX as int, None),
            at_source_end,
        ) {
            Some(size) => Some(tag + size),
            None => None,
        }
    }
}

/// Size of the AAC stream that starts `data`.
pub open spec fn aac_end(data: Seq<u8>, at_source_end: bool) -> Option<int> {
    size_of_chain(chain(data, AudioStream::Adts, usize::MAX as int, None), at_source_end)
}

fn bitrate_kbps(version: u8, index: u8) -> (kbps: u32)
    requires
        version < 4,
        index < 16,
    ensures
        kbps == mpeg_bitrate_kbps(version as int, index as int),
{
    if version == 3 || version == 1 {
        match index {
            1 => 32,
            2 => 40,
            3 => 48,
            4 => 56,
            5 => 64,
            6 => 80,
            7 => 96,
            8 => 112,
            9 => 128,
            10 => 160,
            11 => 192,
            12 => 224,
            13 => 256,
            14 => 320,
            _ => 0,
        }
    } else if 1 <= index && index <= 8 {
        8 * (index as u32)
    } else if 9 <= index && index <= 14 {
        16 * (index as u32) - 64
    } else {
        0
    }
}

fn sample_rate_hz(version: u8, index: u8) -> (hz: u32)
    requires
        version < 4,
        index < 4,
    ensures
        hz == mpeg_sample_rate_hz(version as int, index as int),
{
    let mpeg1: u32 = match index {
        0 => 44100,
        1 => 48000,
        2 => 32000,
        _ => 0,
    };
    match version {
        2 => mpeg1 / 2,
        0 => mpeg1 / 4,
        _ => mpeg1,
    }
}

/// Length in bytes and code of the sample rate of the MPEG audio frame at `pos`.
pub fn mpeg_frame_at(data: &[u8], pos: usize) -> (frame: Option<(usize, u8)>)
    ensures
        frame is Some <==> mpeg_frame(data@, pos as int) is Some,
        frame matches Some((length, rate)) ==> mpeg_frame(data@, pos as int) == Some(
            (length as int, rate),
        ),
{
    if pos > data.len() || data.len() - pos < 3 {
        return None;
    }
    if data[pos] != 0xFF || data[pos + 1] < 0xE0 {
        return None;
    }
    let version: u8 = (data[pos + 1] / 8) % 4;
    let third: u8 = data[pos + 2];
    let kbps: u32 = bitrate_kbps(version, third / 16);
    let hz: u32 = sample_rate_hz(version, (third / 4) % 4);
    if kbps == 0 || hz == 0 {
        return None;
    }
    let padding: u32 = ((third / 2) % 2) as u32;
    let per_kbps: u32 = if version == 3 || version == 1 { 144_000 } else { 72_000 };
    proof {
        lemma_mpeg_length(per_kbps as int, kbps as int, hz as int);
    }
    let length: u32 = (per_kbps * kbps) / hz + padding;
    let index: u8 = (third / 4) % 4;
    let rate: u8 = match version {
        2 => 4 + index,
        0 => 8 + index,
        _ => index,
    };
    Some((length as usize, rate))
}

/// Length in bytes and code of the sample rate of the ADTS frame at `pos`.
pub fn adts_frame_at(data: &[u8], pos: usize) -> (frame: Option<(usize, u8)>)
    ensures
        frame is Some <==> adts_frame(data@, pos as int) is Some,
        frame matches Some((length, rate)) ==> adts_frame(data@, pos as int) == Some(
            (length as int, rate),
        ),
{
    if pos > data.len() || data.len() - pos < 6 {
        return None;
    }
    if data[pos] != 0xFF || data[pos + 1] < 0xF0 {
        return None;
    }
    let profile: u8 = data[pos + 2] / 64;
    let rate_index: u8 = (data[pos + 2] / 4) % 16;
    if profile == 3 || rate_index > 12 {
        return None;
    }
    let length: usize = 2048 * ((data[pos + 3] % 4) as usize) + 8 * (data[pos + 4] as usize) + (
    data[pos + 5] / 32) as usize;
    if length < 7 {
        return None;
    }
    Some((length, rate_index))
}

impl AudioStream {
    /// The frame of this family at `pos`: its length and the code of its rate.
    pub fn frame_at(self, data: &[u8], pos: usize) -> (frame: Option<(usize, u8)>)
        ensures
            frame is Some <==> self.frame(data@, pos as int) is Some,
            frame matches Some((length, rate)) ==> self.frame(data@, pos as int) == Some(
                (length as int, rate),
            ),
    {
        match self {
            AudioStream::Mpeg => mpeg_frame_at(data, pos),
            AudioStream::Adts => adts_frame_at(data, pos),
        }
    }

    /// Bytes it takes to read a frame header of this family.
    pub fn header_len(self) -> (len: usize)
        ensures
            len == self.spec_header_len(),
    {
        match self {
            AudioStream::Mpeg => 3,
            AudioStream::Adts => 6,
        }
    }
}

/// Walks frames from the start of `data`, at most `max_frames` of them. `expected_sample_rate` is
/// the code of the rate of the stream where it is known.
pub fn walk_audio_frames(
    data: &[u8],
    kind: AudioStream,
    max_frames: usize,
    expected_sample_rate: Option<u8>,
) -> (walk: FrameChain)
    ensures
        walk.model() == chain(data@, kind, max_frames as int, expected_sample_rate),
        walk.bytes <= data@.len(),
        walk.frames <= walk.bytes,
        walk.stop == ChainStop::Capped ==> walk.frames == max_frames,
{
    let header_len: usize = kind.header_len();
    let mut pos: usize = 0;
    let mut frames: usize = 0;
    let mut sample_rate: Option<u8> = expected_sample_rate;
    loop
        invariant
            header_len == kind.spec_header_len(),
            pos <= data.len(),
            frames <= pos,
            frames <= max_frames,
            chain(data@, kind, max_frames as int, expected_sample_rate) == chain_from(
                data@,
                kind,
                max_frames as int,
                sample_rate,
                pos as int,
                frames as int,
            ),
        decreases data@.len() - pos,
    {
        if frames >= max_frames {
            return stopped(frames, pos, ChainStop::Capped, sample_rate);
        }
        if data.len() - pos < header_len {
            return stopped(frames, pos, ChainStop::NoMoreData, sample_rate);
        }
        proof {
            law_frame_length_bounds(kind, data@, pos as int);
        }
        match kind.frame_at(data, pos) {
            None => {
                return stopped(frames, pos, ChainStop::BadData, sample_rate);
            },
            Some((length, rate)) => {
                if let Some(expected) = sample_rate {
                    if expected != rate {
                        return stopped(frames, pos, ChainStop::BadData, sample_rate);
                    }
                }
                sample_rate = Some(rate);
                if data.len() - pos < length {
                    return stopped(frames, pos, ChainStop::Truncated, sample_rate);
                }
                pos = pos + length;
                frames = frames + 1;
            },
        }
    }
}

fn stopped(frames: usize, bytes: usize, stop: ChainStop, sample_rate: Option<u8>) -> (walk: FrameChain)
    ensures
        walk.model() == (ChainModel {
            frames: frames as int,
            bytes: bytes as int,
            stop: stop,
            sample_rate: sample_rate,
        }),
        walk.frames == frames,
        walk.bytes == bytes,
        walk.stop == stop,
{
    FrameChain { frames, bytes, stop, sample_rate }
}

/// Whether a chain is enough to believe the candidate. A short chain that was only cut for want
/// of data is believed too: losing a real file is the worse mistake.
pub fn chain_is_credible(walk: &FrameChain) -> (yes: bool)
    ensures
        yes == credible(walk.frames as int, walk.stop),
{
    walk.frames >= AUDIO_MIN_CHAIN_FRAMES || walk.stop != ChainStop::BadData
}

/// Size of the stream behind a chain, or `None` where its end cannot be told. `at_source_end`
/// says whether the walked data reached the end of the source.
pub fn chain_size(walk: &FrameChain, at_source_end: bool) -> (size: Option<usize>)
    ensures
        size is Some <==> size_of_chain(walk.model(), at_source_end) is Some,
        size is Some ==> size->0 == walk.bytes,
{
    if walk.frames < AUDIO_MIN_CHAIN_FRAMES {
        return None;
    }
    match walk.stop {
        ChainStop::BadData => Some(walk.bytes),
        ChainStop::NoMoreData => if at_source_end { Some(walk.bytes) } else { None },
        _ => None,
    }
}

/// Size of the ID3v2 tag that opens `data`: its header, its body and its optional footer.
pub fn id3v2_tag_size(data: &[u8]) -> (size: Option<usize>)
    ensures
        size is Some <==> id3_tag(data@) is Some,
        size matches Some(n) ==> id3_tag(data@) == Some(n as int) && n <= 0x1000_0013,
{
    if data.len() < 10 || data[0] != 0x49 || data[1] != 0x44 || data[2] != 0x33 {
        return None;
    }
    if data[6] >= 0x80 || data[7] >= 0x80 || data[8] >= 0x80 || data[9] >= 0x80 {
        return None;
    }
    let body: usize = 0x20_0000 * (data[6] as usize) + 0x4000 * (data[7] as usize) + 0x80 * (
    data[8] as usize) + data[9] as usize;
    let footer: usize = if (data[5] / 16) % 2 == 1 { 10 } else { 0 };
    Some(10 + body + footer)
}

/// Size of the MP3 that starts `data`, or `None` where its end cannot be told.
pub fn mp3_stream_end(data: &[u8], at_source_end: bool) -> (size: Option<usize>)
    ensures
        size is Some <==> mp3_end(data@, at_source_end) is Some,
        size matches Some(n) ==> mp3_end(data@, at_source_end) == Some(n as int) && n
            <= data@.len(),
{
    let tag: usize = match id3v2_tag_size(data) {
        Some(t) => t,
        None => 0,
    };
    if tag >= data.len() {
        return None;
    }
    let rest = vstd::slice::slice_subrange(data, tag, data.len());
    assert(rest@ == data@.skip(tag as int));
    let walk = walk_audio_frames(rest, AudioStream::Mpeg, usize::MAX, None);
    match chain_size(&walk, at_source_end) {
        Some(n) => Some(tag + n),
        None => None,
    }
}

/// Size of the AAC stream that starts `data`, or `None` where its end cannot be told.
pub fn aac_stream_end(data: &[u8], at_source_end: bool) -> (size: Option<usize>)
    ensures
        size is Some <==> aac_end(data@, at_source_end) is Some,
        size matches Some(n) ==> aac_end(data@, at_source_end) == Some(n as int) && n
            <= data@.len(),
{
    let walk = walk_audio_frames(data, AudioStream::Adts, usize::MAX, None);
    chain_size(&walk, at_source_end)
}

/// An MPEG sync word is believed where a frame stands there and the chain behind it is credible.
pub open spec fn mp3_sync_ok(data: Seq<u8>) -> bool {
    let walk = chain(data, AudioStream::Mpeg, AUDIO_MIN_CHAIN_FRAMES as int, None);
    mpeg_frame(data, 0) is Some && credible(walk.frames, walk.stop)
}

/// An ADTS sync word is believed where its profile and rate index are defined and the chain is
/// credible; with fewer than three bytes there is nothing to hold against it.
pub open spec fn aac_adts_ok(data: Seq<u8>) -> bool {
    let walk = chain(data, AudioStream::Adts, AUDIO_MIN_CHAIN_FRAMES as int, None);
    data.len() < 3 || (data[2] as int / 64 != 3 && (data[2] as int / 4) % 16 <= 12 && credible(
        walk.frames,
        walk.stop,
    ))
}

/// Whether an MPEG sync word at the start of `data` can be believed.
pub fn validate_mp3_sync(data: &[u8]) -> (ok: bool)
    ensures
        ok == mp3_sync_ok(data@),
{
    if mpeg_frame_at(data, 0).is_none() {
        return false;
    }
    let walk = walk_audio_frames(data, AudioStream::Mpeg, AUDIO_MIN_CHAIN_FRAMES, None);
    chain_is_credible(&walk)
}

/// Whether an ADTS sync word at the start of `data` can be believed.
pub fn validate_aac_adts(data: &[u8]) -> (ok: bool)
    ensures
        ok == aac_adts_ok(data@),
{
    if data.len() < 3 {
        return true;
    }
    if data[2] / 64 == 3 || (data[2] / 4) % 16 > 12 {
        return false;
    }
    let walk = walk_audio_frames(data, AudioStream::Adts, AUDIO_MIN_CHAIN_FRAMES, None);
    chain_is_credible(&walk)
}

} // verus!
