//! Following a chain of audio frames through the source, chunk by chunk.
//!
//! A song rarely fits the buffer of the scan, so its chain is followed with further reads. The
//! walk says what to read next and is fed what was read. Each read starts where the confirmed
//! chain ends, so no frame is ever split between two reads.

use vstd::prelude::*;

use crate::scanner::ends::EndResult;
use crate::signatures::audio::{self, AudioStream, ChainStop, AUDIO_MIN_CHAIN_FRAMES};

verus! {

broadcast use vstd::slice::group_slice_axioms;

/// What a walk through the source wants next.
#[derive(Debug, Clone, Copy, PartialEq, Eq, Structural)]
pub enum WalkNext {
    /// The bytes of the source from `offset` on, `want` of them as far as the source goes.
    Read { offset: u64, want: usize },
    /// Nothing more: this is the conclusion.
    Done(EndResult),
}

/// A walk along a chain of audio frames.
#[derive(Debug, Clone, Copy)]
pub struct AudioWalk {
    /// Where the candidate starts in the source.
    pub offset: u64,
    /// Largest size of its format.
    pub max_size: u64,
    pub kind: AudioStream,
    /// Bytes read at a time.
    pub chunk_size: usize,
    /// How far the chain is confirmed, counted from `offset`.
    pub consumed: u64,
    /// Frames chained so far.
    pub frames: u64,
    /// Code of the sample rate of the chain so far.
    pub sample_rate: Option<u8>,
    /// The opening tag, which is no audio, was dealt with.
    pub tag_done: bool,
}

/// What a walk is after it was fed: still going, or concluded.
pub enum AudioStep {
    Going(AudioWalk),
    Concluded(EndResult),
}

/// The chain is long enough to be audio.
pub open spec fn is_audio(frames: int, consumed: int) -> bool {
    frames >= AUDIO_MIN_CHAIN_FRAMES && consumed > 0
}

/// Conclusion where the chain ended on its own.
pub open spec fn closed(frames: int, consumed: int) -> EndResult {
    if is_audio(frames, consumed) { EndResult::Size(consumed as u64) } else { EndResult::Rejected }
}

impl AudioWalk {
    /// The walk never goes past the largest size of the format.
    pub open spec fn well_formed(self) -> bool {
        &&& self.offset + self.max_size <= u64::MAX
        &&& self.consumed <= self.max_size
        &&& 7 * self.frames <= self.consumed
        &&& !self.tag_done ==> self.consumed == 0
    }

    /// How many bytes the walk wants to see next.
    pub open spec fn wanted(self) -> int {
        if self.chunk_size <= self.max_size - self.consumed {
            self.chunk_size as int
        } else {
            self.max_size - self.consumed
        }
    }

    /// What the walk wants next. A cancelled walk keeps what it has seen. A walk that used up the
    /// largest size of the format has met a longer audio, if it was one at all.
    pub open spec fn next_spec(self, cancelled: bool) -> WalkNext {
        if cancelled {
            if is_audio(self.frames as int, self.consumed as int) {
                WalkNext::Done(EndResult::SizeGuess(self.consumed))
            } else {
                WalkNext::Done(EndResult::Unreadable)
            }
        } else if self.consumed >= self.max_size {
            if self.frames >= AUDIO_MIN_CHAIN_FRAMES {
                WalkNext::Done(EndResult::SizeGuess(self.max_size))
            } else {
                WalkNext::Done(EndResult::Rejected)
            }
        } else {
            WalkNext::Read {
                offset: (self.offset + self.consumed) as u64,
                want: self.wanted() as usize,
            }
        }
    }

    /// The walk after the frames of `data` behind `start` were chained. Fewer bytes than wanted
    /// mean that the source ends there.
    pub open spec fn chained(self, data: Seq<u8>, start: int) -> AudioStep {
        let walk = audio::chain(
            data.skip(start),
            self.kind,
            usize::MAX as int,
            self.sample_rate,
        );
        let frames = self.frames + walk.frames;
        let consumed = self.consumed + start + walk.bytes;
        let at_source_end = data.len() < self.wanted();
        match walk.stop {
            ChainStop::BadData => AudioStep::Concluded(closed(frames, consumed)),
            ChainStop::Capped => AudioStep::Concluded(EndResult::Unreadable),
            _ => if at_source_end {
                if walk.stop == ChainStop::Truncated && is_audio(frames, consumed) {
                    AudioStep::Concluded(EndResult::SizeUnverified(consumed as u64))
                } else if walk.stop == ChainStop::Truncated {
                    AudioStep::Concluded(EndResult::Rejected)
                } else {
                    AudioStep::Concluded(closed(frames, consumed))
                }
            } else if walk.bytes == 0 && start == 0 {
                if is_audio(frames, consumed) {
                    AudioStep::Concluded(EndResult::SizeGuess(consumed as u64))
                } else {
                    AudioStep::Concluded(EndResult::Rejected)
                }
            } else {
                AudioStep::Going(
                    AudioWalk {
                        consumed: consumed as u64,
                        frames: frames as u64,
                        sample_rate: walk.sample_rate,
                        tag_done: true,
                        ..self
                    },
                )
            },
        }
    }

    /// The walk after it was fed `data`. An opening tag is passed over first; one as long as the
    /// largest size of the format is no tag.
    pub open spec fn fed(self, data: Seq<u8>) -> AudioStep {
        let tag = audio::id3_tag_or_zero(data);
        if self.tag_done {
            self.chained(data, 0)
        } else if tag >= self.max_size {
            AudioStep::Concluded(EndResult::Rejected)
        } else if tag >= data.len() {
            AudioStep::Going(AudioWalk { consumed: tag as u64, tag_done: true, ..self })
        } else {
            self.chained(data, tag)
        }
    }

    /// The walk after the read that it wanted gave `data`, or failed.
    pub open spec fn after_read(self, data: Option<Seq<u8>>) -> AudioStep {
        match data {
            Some(data) => self.fed(data),
            None => AudioStep::Concluded(EndResult::Unreadable),
        }
    }

    /// Starts a walk at `offset`.
    pub fn new(offset: u64, max_size: u64, kind: AudioStream, chunk_size: usize) -> (walk: Self)
        requires
            offset + max_size <= u64::MAX,
        ensures
            walk.well_formed(),
            walk == (AudioWalk {
                offset: offset,
                max_size: max_size,
                kind: kind,
                chunk_size: chunk_size,
                consumed: 0,
                frames: 0,
                sample_rate: None,
                tag_done: false,
            }),
    {
        AudioWalk {
            offset,
            max_size,
            kind,
            chunk_size,
            consumed: 0,
            frames: 0,
            sample_rate: None,
            tag_done: false,
        }
    }

    /// Says what the walk wants next.
    pub fn next(&self, cancelled: bool) -> (next: WalkNext)
        requires
            self.well_formed(),
        ensures
            next == self.next_spec(cancelled),
    {
        if cancelled {
            return if self.frames >= AUDIO_MIN_CHAIN_FRAMES as u64 && self.consumed > 0 {
                WalkNext::Done(EndResult::SizeGuess(self.consumed))
            } else {
                WalkNext::Done(EndResult::Unreadable)
            };
        }
        if self.consumed >= self.max_size {
            return if self.frames >= AUDIO_MIN_CHAIN_FRAMES as u64 {
                WalkNext::Done(EndResult::SizeGuess(self.max_size))
            } else {
                WalkNext::Done(EndResult::Rejected)
            };
        }
        WalkNext::Read { offset: self.offset + self.consumed, want: self.want() }
    }

    fn want(&self) -> (want: usize)
        requires
            self.well_formed(),
        ensures
            want == self.wanted(),
    {
        let left: u64 = self.max_size - self.consumed;
        if self.chunk_size as u64 <= left {
            self.chunk_size
        } else {
            left as usize
        }
    }

    /// Feeds the walk what the read that it wanted gave, or `None` where the read failed. Returns
    /// the conclusion, once there is one.
    pub fn feed(&mut self, read: Option<&[u8]>) -> (conclusion: Option<EndResult>)
        requires
            old(self).well_formed(),
            old(self).consumed < old(self).max_size,
            read matches Some(data) ==> data@.len() <= old(self).wanted(),
        ensures
            final(self).well_formed(),
            read is None ==> conclusion == Some(EndResult::Unreadable),
            read matches Some(data) ==> match old(self).fed(data@) {
                AudioStep::Going(walk) => conclusion is None && *final(self) == walk,
                AudioStep::Concluded(result) => conclusion == Some(result),
            },
            match old(self).after_read(
                match read {
                    Some(data) => Some(data@),
                    None => None,
                },
            ) {
                AudioStep::Going(walk) => conclusion is None && *final(self) == walk,
                AudioStep::Concluded(result) => conclusion == Some(result),
            },
    {
        match read {
            None => Some(EndResult::Unreadable),
            Some(data) => {
                if self.tag_done {
                    return self.feed_frames(data, 0);
                }
                let tag: usize = match audio::id3v2_tag_size(data) {
                    Some(size) => size,
                    None => 0,
                };
                if tag as u64 >= self.max_size {
                    return Some(EndResult::Rejected);
                }
                if tag >= data.len() {
                    self.consumed = tag as u64;
                    self.tag_done = true;
                    return None;
                }
                self.feed_frames(data, tag)
            },
        }
    }

    fn feed_frames(&mut self, data: &[u8], start: usize) -> (conclusion: Option<EndResult>)
        requires
            old(self).well_formed(),
            data@.len() <= old(self).wanted(),
            start <= data@.len(),
            start == 0 || !old(self).tag_done,
        ensures
            final(self).well_formed(),
            match old(self).chained(data@, start as int) {
                AudioStep::Going(walk) => conclusion is None && *final(self) == walk,
                AudioStep::Concluded(result) => conclusion == Some(result),
            },
    {
        let want: usize = self.want();
        let at_source_end = data.len() < want;
        let rest = vstd::slice::slice_subrange(data, start, data.len());
        assert(rest@ == data@.skip(start as int));
        let walk = audio::walk_audio_frames(rest, self.kind, usize::MAX, self.sample_rate);
        proof {
            audio::law_chain_bounds(
                rest@,
                self.kind,
                usize::MAX as int,
                self.sample_rate,
                0,
                0,
            );
        }
        let frames: u64 = self.frames + walk.frames as u64;
        let consumed: u64 = self.consumed + (start + walk.bytes) as u64;
        let audio_enough = frames >= AUDIO_MIN_CHAIN_FRAMES as u64 && consumed > 0;
        match walk.stop {
            ChainStop::BadData => if audio_enough {
                Some(EndResult::Size(consumed))
            } else {
                Some(EndResult::Rejected)
            },
            ChainStop::Capped => Some(EndResult::Unreadable),
            _ => {
                if at_source_end {
                    if !audio_enough {
                        Some(EndResult::Rejected)
                    } else if walk.stop == ChainStop::Truncated {
                        Some(EndResult::SizeUnverified(consumed))
                    } else {
                        Some(EndResult::Size(consumed))
                    }
                } else if walk.bytes == 0 && start == 0 {
                    if audio_enough {
                        Some(EndResult::SizeGuess(consumed))
                    } else {
                        Some(EndResult::Rejected)
                    }
                } else {
                    self.consumed = consumed;
                    self.frames = frames;
                    self.sample_rate = walk.sample_rate;
                    self.tag_done = true;
                    None
                }
            },
        }
    }
}

/// The bytes of a source from `from` on, `count` of them as far as it goes.
pub open spec fn read_of(source: Seq<u8>, from: int, count: int) -> Seq<u8> {
    let start = if from <= source.len() { from } else { source.len() as int };
    let stop = if from + count <= source.len() { from + count } else { source.len() as int };
    source.subrange(start, stop)
}

/// Conclusion of a walk that is fed faithfully from `source` and never cancelled.
pub open spec fn walked(source: Seq<u8>, walk: AudioWalk) -> EndResult
    decreases walk.max_size - walk.consumed + (if walk.tag_done { 0int } else { 1int }),
    when walk.well_formed()
{
    match walk.next_spec(false) {
        WalkNext::Done(result) => result,
        WalkNext::Read { offset, want } => {
            let data = read_of(source, offset as int, want as int);
            match walk.fed(data) {
                AudioStep::Concluded(result) => result,
                AudioStep::Going(after) => {
                    proof {
                        lemma_walk_goes_on(walk, data);
                    }
                    walked(source, after)
                },
            }
        },
    }
}

/// A walk that goes on stays sound, and either passes the tag or gets further.
pub proof fn lemma_walk_goes_on(walk: AudioWalk, data: Seq<u8>)
    requires
        walk.well_formed(),
        walk.consumed < walk.max_size,
        data.len() <= walk.wanted(),
    ensures
        walk.fed(data) matches AudioStep::Going(after) ==> {
            &&& after.well_formed()
            &&& after.tag_done
            &&& after.consumed >= walk.consumed
            &&& walk.tag_done ==> after.consumed > walk.consumed
            &&& after.offset == walk.offset
            &&& after.max_size == walk.max_size
            &&& after.kind == walk.kind
            &&& after.chunk_size == walk.chunk_size
        },
{
    let tag = audio::id3_tag_or_zero(data);
    let start = if walk.tag_done { 0 } else { tag };
    if start < data.len() {
        audio::law_chain_bounds(
            data.skip(start),
            walk.kind,
            usize::MAX as int,
            walk.sample_rate,
            0,
            0,
        );
    } else if walk.tag_done {
        assert(data.skip(0) =~= data);
    }
}

/// Conclusion about the audio that starts `rest`, which runs to the end of the source, seen as a
/// whole: the opening tag, then all its frames.
pub open spec fn verdict(rest: Seq<u8>, kind: AudioStream, max_size: int) -> EndResult {
    let tag = audio::id3_tag_or_zero(rest);
    let walk = audio::chain(rest.skip(tag), kind, (rest.len() + 1) as int, None);
    if tag >= max_size || tag >= rest.len() {
        EndResult::Rejected
    } else if walk.stop == ChainStop::Truncated {
        if is_audio(walk.frames, tag + walk.bytes) {
            EndResult::SizeUnverified((tag + walk.bytes) as u64)
        } else {
            EndResult::Rejected
        }
    } else {
        closed(walk.frames, tag + walk.bytes)
    }
}

/// How the source is cut into reads does not matter: a walk in chunks comes to the conclusion
/// that the stream as a whole gives. It holds for every source that ends before the largest size
/// of the format is used up, and every chunk that can hold a frame.
pub proof fn law_chunks_do_not_matter(
    source: Seq<u8>,
    offset: u64,
    max_size: u64,
    kind: AudioStream,
    chunk_size: usize,
)
    requires
        offset + max_size <= u64::MAX,
        offset <= source.len(),
        source.len() - offset < max_size,
        8192 <= chunk_size,
    ensures
        walked(
            source,
            AudioWalk {
                offset,
                max_size,
                kind,
                chunk_size,
                consumed: 0,
                frames: 0,
                sample_rate: None,
                tag_done: false,
            },
        ) == verdict(source.skip(offset as int), kind, max_size as int),
{
    let walk = AudioWalk {
        offset,
        max_size,
        kind,
        chunk_size,
        consumed: 0,
        frames: 0,
        sample_rate: None,
        tag_done: false,
    };
    let rest = source.skip(offset as int);
    let data = read_of(source, offset as int, walk.wanted());
    assert(data =~= rest.take(data.len() as int));
    assert(audio::id3_tag(data) == audio::id3_tag(rest));
    let tag = audio::id3_tag_or_zero(rest);
    assert(0 <= tag);
    if tag < max_size {
        if tag >= data.len() {
            let after = AudioWalk { consumed: tag as u64, tag_done: true, ..walk };
            lemma_walk_goes_on(walk, data);
            if tag < rest.len() {
                lemma_chunks(source, after, tag);
            } else {
                let none = read_of(source, offset + tag, after.wanted());
                assert(none.skip(0).len() == 0);
            }
        } else {
            lemma_one_chunk(source, walk, tag, data, tag);
        }
    }
}

/// Where the buffer of the scan already shows the end of an MP3, the stream as a whole gives the
/// same size.
pub proof fn law_buffer_and_stream_agree_on_mp3(rest: Seq<u8>, cut: int, max_size: int, size: int)
    requires
        0 <= cut <= rest.len() < max_size,
        cut <= usize::MAX,
        audio::mp3_end(rest.take(cut), cut == rest.len()) == Some(size),
    ensures
        verdict(rest, AudioStream::Mpeg, max_size) == EndResult::Size(size as u64),
{
    let part = rest.take(cut);
    let tag = audio::id3_tag_or_zero(part);
    lemma_part_agrees(rest, part, AudioStream::Mpeg, cut, tag);
}

/// Where the buffer of the scan already shows the end of an AAC stream, the stream as a whole
/// gives the same size.
pub proof fn law_buffer_and_stream_agree_on_aac(rest: Seq<u8>, cut: int, max_size: int, size: int)
    requires
        0 <= cut <= rest.len() < max_size,
        cut <= usize::MAX,
        audio::aac_end(rest.take(cut), cut == rest.len()) == Some(size),
    ensures
        verdict(rest, AudioStream::Adts, max_size) == EndResult::Size(size as u64),
{
    let part = rest.take(cut);
    assert(part.skip(0) =~= part);
    lemma_part_agrees(rest, part, AudioStream::Adts, cut, 0);
    assert(audio::adts_frame(part, 0) is Some);
}

proof fn lemma_part_agrees(
    rest: Seq<u8>,
    part: Seq<u8>,
    kind: AudioStream,
    cut: int,
    tag: int,
)
    requires
        0 <= cut <= rest.len(),
        part == rest.take(cut),
        0 <= tag < cut,
        audio::size_of_chain(
            audio::chain(part.skip(tag), kind, usize::MAX as int, None),
            cut == rest.len(),
        ) is Some,
        cut <= usize::MAX,
    ensures
        ({
            let walk = audio::chain(part.skip(tag), kind, usize::MAX as int, None);
            let whole = audio::chain(rest.skip(tag), kind, (rest.len() + 1) as int, None);
            &&& whole.stop == walk.stop
            &&& whole.frames == walk.frames
            &&& whole.bytes == walk.bytes
            &&& walk.frames >= AUDIO_MIN_CHAIN_FRAMES
            &&& 84 <= walk.bytes <= cut - tag
            &&& kind.frame(part.skip(tag), 0) is Some
        }),
{
    let stream = rest.skip(tag);
    let head = part.skip(tag);
    assert(stream.skip(0) =~= stream);
    assert(head =~= stream.skip(0).take(cut - tag));
    lemma_cut_agrees(stream, kind, (rest.len() + 1) as int, None, 0, 0, cut - tag);
    if kind.frame(head, 0) is None {
        assert(audio::chain(head, kind, usize::MAX as int, None).frames == 0);
    }
}

/// The walk has chained everything from the tag up to where it stands.
spec fn in_step(source: Seq<u8>, walk: AudioWalk, tag: int) -> bool {
    let rest = source.skip(walk.offset as int);
    &&& 0 <= tag <= walk.consumed
    &&& walk.consumed <= rest.len()
    &&& audio::chain(rest.skip(tag), walk.kind, (rest.len() + 1) as int, None) == audio::chain_from(
        rest.skip(tag),
        walk.kind,
        (rest.len() + 1) as int,
        walk.sample_rate,
        walk.consumed - tag,
        walk.frames as int,
    )
}

spec fn sound(source: Seq<u8>, walk: AudioWalk) -> bool {
    &&& walk.well_formed()
    &&& walk.offset <= source.len()
    &&& source.len() - walk.offset < walk.max_size
    &&& 8192 <= walk.chunk_size
}

proof fn lemma_chunks(source: Seq<u8>, walk: AudioWalk, tag: int)
    requires
        sound(source, walk),
        walk.tag_done,
        in_step(source, walk, tag),
        tag == audio::id3_tag_or_zero(source.skip(walk.offset as int)),
        tag < source.len() - walk.offset,
    ensures
        walked(source, walk) == verdict(
            source.skip(walk.offset as int),
            walk.kind,
            walk.max_size as int,
        ),
    decreases walk.max_size - walk.consumed, 1int,
{
    let data = read_of(source, walk.offset + walk.consumed, walk.wanted());
    lemma_one_chunk(source, walk, tag, data, 0);
}

spec fn one_chunk_pre(
    source: Seq<u8>,
    walk: AudioWalk,
    tag: int,
    data: Seq<u8>,
    start: int,
) -> bool {
    &&& sound(source, walk)
    &&& data == read_of(source, walk.offset + walk.consumed, walk.wanted())
    &&& walk.tag_done ==> start == 0 && in_step(source, walk, tag)
    &&& !walk.tag_done ==> start == tag && walk.frames == 0 && walk.sample_rate is None && tag
        < data.len()
    &&& 0 <= tag < source.len() - walk.offset
    &&& tag < walk.max_size
}

/// A walk over the next `cut` bytes of a stream agrees with the walk over all of it.
#[verifier::spinoff_prover]
#[verifier::rlimit(60)]
proof fn lemma_cut_agrees(
    stream: Seq<u8>,
    kind: AudioStream,
    cap: int,
    sample_rate: Option<u8>,
    pos: int,
    frames: int,
    cut: int,
)
    requires
        0 <= frames,
        0 <= pos,
        0 <= cut <= stream.len() - pos,
        cut <= usize::MAX,
        cap - frames > stream.len() - pos,
    ensures
        ({
            let left = stream.skip(pos);
            let part = audio::chain(left.take(cut), kind, usize::MAX as int, sample_rate);
            let whole = audio::chain_from(stream, kind, cap, sample_rate, pos, frames);
            &&& part.stop != ChainStop::Capped
            &&& 0 <= part.bytes <= cut
            &&& 0 <= 7 * part.frames <= part.bytes
            &&& part.stop == ChainStop::BadData || cut == left.len() ==> {
                &&& whole.stop == part.stop
                &&& whole.frames == frames + part.frames
                &&& whole.bytes == pos + part.bytes
            }
            &&& part.stop != ChainStop::BadData ==> whole == audio::chain_from(
                stream,
                kind,
                cap,
                part.sample_rate,
                pos + part.bytes,
                frames + part.frames,
            )
        }),
{
    let left = stream.skip(pos);
    let head = left.take(cut);
    let part = audio::chain(head, kind, usize::MAX as int, sample_rate);
    audio::law_chain_bounds(head, kind, usize::MAX as int, sample_rate, 0, 0);
    audio::law_idle_cap(head, kind, usize::MAX as int, cap - frames, sample_rate, 0, 0);
    audio::law_chain_of_the_rest(stream, kind, cap, sample_rate, pos, frames);
    audio::law_chain_resumes(left, kind, cap - frames, sample_rate, cut);
    if cut == left.len() {
        assert(head =~= left);
    }
    if part.stop != ChainStop::BadData {
        audio::law_chain_of_the_rest(
            left,
            kind,
            cap - frames,
            part.sample_rate,
            part.bytes,
            part.frames,
        );
        audio::law_chain_of_the_rest(
            stream,
            kind,
            cap,
            part.sample_rate,
            pos + part.bytes,
            frames + part.frames,
        );
        assert(left.skip(part.bytes) =~= stream.skip(pos + part.bytes));
    }
}

/// What one chunk shows agrees with what the stream as a whole shows.
proof fn lemma_chunk_agrees(
    source: Seq<u8>,
    walk: AudioWalk,
    tag: int,
    data: Seq<u8>,
    start: int,
)
    requires
        one_chunk_pre(source, walk, tag, data, start),
    ensures
        ({
            let rest = source.skip(walk.offset as int);
            let cap = (rest.len() + 1) as int;
            let sample_rate = walk.sample_rate;
            let part = audio::chain(data.skip(start), walk.kind, usize::MAX as int, sample_rate);
            let whole = audio::chain(rest.skip(tag), walk.kind, cap, None);
            &&& part.stop != ChainStop::Capped
            &&& 0 <= part.bytes <= data.len() - start
            &&& 0 <= 7 * part.frames <= part.bytes
            &&& part.stop == ChainStop::BadData || data.len() < walk.wanted() ==> {
                &&& whole.stop == part.stop
                &&& whole.frames == walk.frames + part.frames
                &&& tag + whole.bytes == walk.consumed + start + part.bytes
            }
            &&& part.stop != ChainStop::BadData ==> whole == audio::chain_from(
                rest.skip(tag),
                walk.kind,
                cap,
                part.sample_rate,
                walk.consumed + start - tag + part.bytes,
                walk.frames + part.frames,
            )
        }),
{
    let rest = source.skip(walk.offset as int);
    let stream = rest.skip(tag);
    let cap = (rest.len() + 1) as int;
    let sample_rate = walk.sample_rate;
    let pos = walk.consumed + start - tag;
    let cut = data.len() - start;
    assert(data.skip(start) =~= stream.skip(pos).take(cut));
    lemma_cut_agrees(stream, walk.kind, cap, sample_rate, pos, walk.frames as int, cut);
}

#[verifier::rlimit(60)]
proof fn lemma_one_chunk(source: Seq<u8>, walk: AudioWalk, tag: int, data: Seq<u8>, start: int)
    requires
        one_chunk_pre(source, walk, tag, data, start),
        tag == audio::id3_tag_or_zero(source.skip(walk.offset as int)),
        !walk.tag_done ==> tag == audio::id3_tag_or_zero(data),
    ensures
        walked(source, walk) == verdict(
            source.skip(walk.offset as int),
            walk.kind,
            walk.max_size as int,
        ),
    decreases walk.max_size - walk.consumed + (if walk.tag_done { 0int } else { 1int }), 0int,
{
    let sample_rate = walk.sample_rate;
    let part_data = data.skip(start);
    let part = audio::chain(part_data, walk.kind, usize::MAX as int, sample_rate);
    lemma_chunk_agrees(source, walk, tag, data, start);
    assert(walk.fed(data) == walk.chained(data, start));
    if part.stop != ChainStop::BadData && data.len() >= walk.wanted() {
        lemma_frames_fit(part_data, walk.kind, sample_rate);
        lemma_walk_goes_on(walk, data);
        assert(part.bytes > 0 || start > 0);
        let after = walk.fed(data)->Going_0;
        assert(after.sample_rate == part.sample_rate);
        lemma_chunks(source, after, tag);
    }
}

/// Data that can hold a frame either chains one or shows that none is there.
proof fn lemma_frames_fit(data: Seq<u8>, kind: AudioStream, sample_rate: Option<u8>)
    ensures
        data.len() >= 8191 ==> {
            let walk = audio::chain(data, kind, usize::MAX as int, sample_rate);
            walk.stop == ChainStop::BadData || walk.bytes > 0
        },
{
    audio::law_frame_length_bounds(kind, data, 0);
    if data.len() >= 8191 {
        if let Some((length, rate)) = kind.frame(data, 0) {
            if audio::same_rate(sample_rate, rate) {
                audio::law_chain_bounds(data, kind, usize::MAX as int, sample_rate, 0, 0);
                lemma_first_frame_counts(data, kind, sample_rate);
            }
        }
    }
}

proof fn lemma_first_frame_counts(data: Seq<u8>, kind: AudioStream, sample_rate: Option<u8>)
    requires
        data.len() >= 8191,
        kind.frame(data, 0) matches Some((length, rate)) && audio::same_rate(sample_rate, rate),
    ensures
        audio::chain(data, kind, usize::MAX as int, sample_rate).bytes > 0,
{
    let (length, rate) = kind.frame(data, 0)->0;
    audio::law_frame_length_bounds(kind, data, 0);
    audio::law_chain_bounds(data, kind, usize::MAX as int, Some(rate), length, 1);
}

/// A walk that is stopped never settles an end: with twelve frames or more it keeps what it has
/// seen as an assumed size, with fewer it leaves the find as it was.
pub proof fn law_cancelled_walks_settle_nothing(walk: AudioWalk)
    requires
        walk.well_formed(),
    ensures
        walk.next_spec(true) == WalkNext::Done(
            if walk.frames >= 12 {
                EndResult::SizeGuess(walk.consumed)
            } else {
                EndResult::Unreadable
            },
        ),
{
}

/// A chain of twelve frames or more that is still going at the largest size of its format is assumed
/// to have that size, and a shorter one is no audio. Up to there the walk reads on from where the
/// chain ends, and never beyond the largest size.
pub proof fn law_long_audio_gets_the_largest_size(walk: AudioWalk)
    requires
        walk.well_formed(),
        walk.chunk_size > 0,
    ensures
        match walk.next_spec(false) {
            WalkNext::Done(result) => walk.consumed == walk.max_size && result == if walk.frames
                >= 12 {
                EndResult::SizeGuess(walk.max_size)
            } else {
                EndResult::Rejected
            },
            WalkNext::Read { offset, want } => {
                &&& walk.consumed < walk.max_size
                &&& offset == walk.offset + walk.consumed
                &&& 0 < want <= walk.chunk_size
                &&& offset + want <= walk.offset + walk.max_size
                &&& want < walk.chunk_size ==> offset + want == walk.offset + walk.max_size
            },
        },
{
}

/// A read that fails says nothing of the audio: it is neither settled nor rejected.
pub proof fn law_failed_reads_say_nothing(walk: AudioWalk)
    ensures
        walk.after_read(None) == AudioStep::Concluded(EndResult::Unreadable),
{
}

/// A frame that is longer than all that a walk sees at a time leaves the audio as it is known so far,
/// as an assumed size.
pub proof fn law_frames_longer_than_a_read_end_the_walk(
    walk: AudioWalk,
    data: Seq<u8>,
    length: int,
    rate: u8,
)
    requires
        walk.well_formed(),
        walk.tag_done,
        data.len() == walk.wanted(),
        walk.kind.frame(data, 0) == Some((length, rate)),
        walk.sample_rate is None || walk.sample_rate == Some(rate),
        length > data.len(),
    ensures
        walk.after_read(Some(data)) == AudioStep::Concluded(
            if walk.frames >= 12 {
                EndResult::SizeGuess(walk.consumed)
            } else {
                EndResult::Rejected
            },
        ),
{
    assert(data.skip(0) =~= data);
}

} // verus!
