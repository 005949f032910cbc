//! Following the boxes of an MP4, HEIC, 3GP or M4A file through the source.
//!
//! Each box says how long it is, so a video of a gigabyte takes a handful of short reads.

use vstd::prelude::*;

use crate::scanner::aligned::ISOBMFF_HEADER_READ;
use crate::scanner::ends::EndResult;
use crate::scanner::walk_audio::{self, WalkNext};
use crate::signatures::isobmff::{
    self, BoxLen, ISOBMFF_MAX_BOXES, ISOBMFF_MAX_BOXES_NO_INDEX, ISOBMFF_MAX_FTYP,
    ISOBMFF_MIN_BOXES,
};

verus! {

broadcast use vstd::slice::group_slice_axioms;

/// A walk along the boxes of a file.
#[derive(Debug, Clone, Copy)]
pub struct BoxWalk {
    /// Where the candidate starts in the source.
    pub offset: u64,
    /// Largest size of its format.
    pub max_size: u64,
    pub source_size: u64,
    /// Where the next box starts, counted from `offset`.
    pub pos: u64,
    pub boxes: usize,
    /// A box with the index of the file was among them.
    pub has_index: bool,
}

/// What a walk is after it was fed: still going, or concluded.
pub enum BoxStep {
    Going(BoxWalk),
    Concluded(EndResult),
}

/// The smaller of two numbers.
pub open spec fn smaller(a: int, b: int) -> int {
    if a <= b { a } else { b }
}

/// Conclusion where the chain of boxes ended.
pub open spec fn closed(boxes: int, has_index: bool, pos: int) -> EndResult {
    if isobmff::is_whole_file(boxes, has_index, pos) {
        EndResult::Size(pos as u64)
    } else {
        EndResult::Rejected
    }
}

/// Conclusion where the end cannot be told: the file is assumed to reach this far, and without an
/// index it is none.
pub open spec fn assumed(has_index: bool, reach: int) -> EndResult {
    if has_index && reach > 0 { EndResult::SizeGuess(reach as u64) } else { EndResult::Rejected }
}

impl BoxWalk {
    /// No more boxes than a walk may take.
    pub open spec fn well_formed(self) -> bool {
        self.boxes <= ISOBMFF_MAX_BOXES
    }

    /// Bytes from the candidate to the end of the source.
    pub open spec fn left(self) -> int {
        if self.offset <= self.source_size { self.source_size - self.offset } else { 0 }
    }

    /// What the walk wants next.
    pub open spec fn next_spec(self, cancelled: bool) -> WalkNext {
        let here = self.offset + self.pos;
        if cancelled {
            WalkNext::Done(EndResult::Unreadable)
        } else if self.pos > self.max_size {
            WalkNext::Done(assumed(self.has_index, self.max_size as int))
        } else if self.boxes >= isobmff::box_cap(self.has_index) {
            WalkNext::Done(assumed(self.has_index, self.pos as int))
        } else if here > u64::MAX {
            WalkNext::Done(EndResult::Unreadable)
        } else if here == self.source_size {
            WalkNext::Done(closed(self.boxes as int, self.has_index, self.pos as int))
        } else if here > self.source_size {
            WalkNext::Done(assumed(self.has_index, self.pos as int))
        } else {
            WalkNext::Read { offset: here as u64, want: 16 }
        }
    }

    /// The walk after it was fed the bytes where the next box should start.
    pub open spec fn fed(self, view: Seq<u8>) -> BoxStep {
        let done = BoxStep::Concluded(
            closed(self.boxes as int, self.has_index, self.pos as int),
        );
        let kind = isobmff::box_type(view);
        if kind is None {
            done
        } else if self.boxes == 0 && kind->0 != isobmff::ftyp() {
            BoxStep::Concluded(EndResult::Rejected)
        } else if self.boxes > 0 && kind->0 == isobmff::ftyp() {
            done
        } else {
            match isobmff::box_len(view, self.boxes == 0) {
                BoxLen::Bytes(len) => if self.boxes == 0 && len > ISOBMFF_MAX_FTYP {
                    BoxStep::Concluded(EndResult::Rejected)
                } else if self.offset + self.pos + len > u64::MAX {
                    BoxStep::Concluded(EndResult::Unreadable)
                } else if self.offset + self.pos + len > self.source_size {
                    BoxStep::Concluded(
                        assumed(self.has_index, smaller(self.left(), self.max_size as int)),
                    )
                } else {
                    BoxStep::Going(
                        BoxWalk {
                            pos: (self.pos + len) as u64,
                            boxes: (self.boxes + 1) as usize,
                            has_index: self.has_index || isobmff::is_index_type(kind->0),
                            ..self
                        },
                    )
                },
                BoxLen::ToEndOfFile => BoxStep::Concluded(
                    assumed(self.has_index, smaller(self.left(), self.max_size as int)),
                ),
                BoxLen::Invalid => done,
            }
        }
    }

    /// The walk after the read that it wanted gave `view`, or failed.
    pub open spec fn after_read(self, view: Option<Seq<u8>>) -> BoxStep {
        match view {
            Some(view) => self.fed(view),
            None => BoxStep::Concluded(EndResult::Unreadable),
        }
    }

    /// Starts a walk at `offset`.
    pub fn new(offset: u64, max_size: u64, source_size: u64) -> (walk: Self)
        ensures
            walk.well_formed(),
            walk == (BoxWalk {
                offset: offset,
                max_size: max_size,
                source_size: source_size,
                pos: 0,
                boxes: 0,
                has_index: false,
            }),
    {
        BoxWalk { offset, max_size, source_size, pos: 0, boxes: 0, has_index: false }
    }

    fn close(&self) -> (result: EndResult)
        ensures
            result == closed(self.boxes as int, self.has_index, self.pos as int),
    {
        if self.boxes >= ISOBMFF_MIN_BOXES && self.has_index && self.pos > 0 {
            EndResult::Size(self.pos)
        } else {
            EndResult::Rejected
        }
    }

    fn guess(&self, reach: u64) -> (result: EndResult)
        ensures
            result == assumed(self.has_index, reach as int),
    {
        if self.has_index && reach > 0 {
            EndResult::SizeGuess(reach)
        } else {
            EndResult::Rejected
        }
    }

    fn guess_to_source_end(&self) -> (result: EndResult)
        ensures
            result == assumed(self.has_index, smaller(self.left(), self.max_size as int)),
    {
        let left: u64 = self.source_size.saturating_sub(self.offset);
        self.guess(if left <= self.max_size { left } else { self.max_size })
    }

    /// Says what the walk wants next.
    pub fn next(&self, cancelled: bool) -> (next: WalkNext)
        requires
            self.well_formed(),
        ensures
            next == self.next_spec(cancelled),
    {
        if cancelled {
            return WalkNext::Done(EndResult::Unreadable);
        }
        if self.pos > self.max_size {
            return WalkNext::Done(self.guess(self.max_size));
        }
        let cap: usize = if self.has_index {
            ISOBMFF_MAX_BOXES
        } else {
            ISOBMFF_MAX_BOXES_NO_INDEX
        };
        if self.boxes >= cap {
            return WalkNext::Done(self.guess(self.pos));
        }
        match self.offset.checked_add(self.pos) {
            None => WalkNext::Done(EndResult::Unreadable),
            Some(here) => if here == self.source_size {
                WalkNext::Done(self.close())
            } else if here > self.source_size {
                WalkNext::Done(self.guess(self.pos))
            } else {
                WalkNext::Read { offset: here, want: ISOBMFF_HEADER_READ }
            },
        }
    }

    /// Feeds the walk what the read that it wanted gave, or `None` where the read failed. Returns
    /// the conclusion, once there is one.
    pub fn feed(&mut self, read: Option<&[u8]>) -> (conclusion: Option<EndResult>)
        requires
            old(self).well_formed(),
            old(self).boxes < isobmff::box_cap(old(self).has_index),
        ensures
            final(self).well_formed(),
            read is None ==> conclusion == Some(EndResult::Unreadable),
            read matches Some(view) ==> match old(self).fed(view@) {
                BoxStep::Going(walk) => conclusion is None && *final(self) == walk,
                BoxStep::Concluded(result) => conclusion == Some(result),
            },
            match old(self).after_read(
                match read {
                    Some(view) => Some(view@),
                    None => None,
                },
            ) {
                BoxStep::Going(walk) => conclusion is None && *final(self) == walk,
                BoxStep::Concluded(result) => conclusion == Some(result),
            },
    {
        match read {
            None => Some(EndResult::Unreadable),
            Some(view) => match isobmff::isobmff_box_type_at_bytes(view) {
                None => Some(self.close()),
                Some(kind) => {
                    let opens = isobmff::is_ftyp(&kind);
                    if self.boxes == 0 && !opens {
                        return Some(EndResult::Rejected);
                    }
                    if self.boxes > 0 && opens {
                        return Some(self.close());
                    }
                    match isobmff::isobmff_box_len_at(view, self.boxes == 0) {
                        BoxLen::Bytes(len) => {
                            if self.boxes == 0 && len > ISOBMFF_MAX_FTYP {
                                return Some(EndResult::Rejected);
                            }
                            let next: u64 = match self.pos.checked_add(len) {
                                Some(next) => next,
                                None => {
                                    return Some(EndResult::Unreadable);
                                },
                            };
                            match self.offset.checked_add(next) {
                                None => {
                                    return Some(EndResult::Unreadable);
                                },
                                Some(end) => {
                                    if end > self.source_size {
                                        return Some(self.guess_to_source_end());
                                    }
                                },
                            }
                            if isobmff::is_isobmff_index_box_bytes(&kind) {
                                self.has_index = true;
                            }
                            self.pos = next;
                            self.boxes = self.boxes + 1;
                            None
                        },
                        BoxLen::ToEndOfFile => Some(self.guess_to_source_end()),
                        BoxLen::Invalid => Some(self.close()),
                    }
                },
            },
        }
    }
}

/// Conclusion of a walk that is fed faithfully from `source` and never cancelled.
pub open spec fn walked(source: Seq<u8>, walk: BoxWalk) -> EndResult
    decreases walk.source_size - walk.pos,
{
    match walk.next_spec(false) {
        WalkNext::Done(result) => result,
        WalkNext::Read { offset, want } => {
            let view = walk_audio::read_of(source, offset as int, want as int);
            match walk.fed(view) {
                BoxStep::Concluded(result) => result,
                BoxStep::Going(after) => {
                    proof {
                        isobmff::law_box_len_covers_header(view, walk.boxes == 0);
                    }
                    walked(source, after)
                },
            }
        },
    }
}

/// Where the buffer of the scan already shows the end of a file, further reads would come to the
/// same size.
pub proof fn law_buffer_and_source_agree(
    source: Seq<u8>,
    walk: BoxWalk,
    limit: int,
    size: int,
)
    requires
        walk.source_size == source.len(),
        walk.offset + walk.pos <= limit <= source.len(),
        limit - walk.offset <= walk.max_size,
        isobmff::boxes_end(
            source.subrange(walk.offset as int, limit),
            limit == source.len(),
            walk.pos as int,
            walk.boxes as int,
            walk.has_index,
        ) == Some(size),
    ensures
        walked(source, walk) == EndResult::Size(size as u64),
    decreases limit - walk.offset - walk.pos,
{
    let data = source.subrange(walk.offset as int, limit);
    let here = walk.offset + walk.pos;
    let view = walk_audio::read_of(source, here, 16);
    if walk.pos < data.len() {
        assert(isobmff::box_view(data, walk.pos as int) =~= view);
        isobmff::law_box_len_covers_header(view, walk.boxes == 0);
        match walk.fed(view) {
            BoxStep::Going(after) => {
                law_buffer_and_source_agree(source, after, limit, size);
            },
            BoxStep::Concluded(_) => {},
        }
    }
}

/// A concluded size never goes past the end of the source, and an assumed one never past the
/// largest size of the format.
pub proof fn law_concluded_sizes_are_real(source: Seq<u8>, walk: BoxWalk)
    requires
        walk.source_size == source.len(),
        walk.offset + walk.pos <= walk.source_size,
    ensures
        walked(source, walk) matches EndResult::Size(size) ==> walk.offset + size <= source.len(),
        walked(source, walk) !is SizeUnverified,
        walked(source, walk) matches EndResult::SizeGuess(size) ==> size <= walk.max_size,
    decreases walk.source_size - walk.pos,
{
    if let WalkNext::Read { offset, want } = walk.next_spec(false) {
        let view = walk_audio::read_of(source, offset as int, want as int);
        isobmff::law_box_len_covers_header(view, walk.boxes == 0);
        if let BoxStep::Going(after) = walk.fed(view) {
            law_concluded_sizes_are_real(source, after);
        }
    }
}

/// A walk that is stopped says nothing of the end. Otherwise it looks at the sixteen bytes where the
/// last box ended, as long as the source has any there, the largest size is not passed, and there
/// were no more boxes than a file may have: 200,000, or 64 as long as none of them held the index.
pub proof fn law_walks_look_where_the_last_box_ended(walk: BoxWalk)
    requires
        walk.well_formed(),
        walk.offset + walk.pos <= u64::MAX,
    ensures
        walk.next_spec(true) == WalkNext::Done(EndResult::Unreadable),
        walk.next_spec(false) is Read <==> {
            &&& walk.offset + walk.pos < walk.source_size
            &&& walk.pos <= walk.max_size
            &&& walk.boxes < if walk.has_index { 200_000 } else { 64int }
        },
        walk.next_spec(false) matches WalkNext::Read { offset, want } ==> offset == walk.offset
            + walk.pos && want == 16,
{
}

/// Without a box that holds the index nothing is assumed of a file. With one, a file that is not seen
/// to close is assumed to reach as far as its boxes do, but never beyond the largest size.
pub proof fn law_files_without_an_index_are_not_assumed(walk: BoxWalk)
    requires
        walk.well_formed(),
    ensures
        walk.next_spec(false) matches WalkNext::Done(result) ==> {
            &&& result is SizeGuess ==> walk.has_index
            &&& result matches EndResult::SizeGuess(size) ==> size == if walk.pos > walk.max_size {
                walk.max_size
            } else {
                walk.pos
            }
            &&& result matches EndResult::Size(size) ==> size == walk.pos && walk.has_index
                && walk.boxes >= 2 && walk.offset + walk.pos == walk.source_size
            &&& result !is SizeUnverified
        },
{
}

/// A read that fails says nothing of the file: it is neither settled nor rejected.
pub proof fn law_failed_reads_say_nothing(walk: BoxWalk)
    ensures
        walk.after_read(None) == BoxStep::Concluded(EndResult::Unreadable),
{
}

} // verus!
