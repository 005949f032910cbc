//! Scanning one segment of the source, block by block.
//!
//! A damaged block must not cost what was found before it or lies behind it: it is skipped, and
//! the scan goes on.

use vstd::prelude::*;

use crate::bytes;
use crate::scanner::buffer::{self, Finds};
use crate::scanner::found::FoundFile;
use crate::scanner::refine;
use crate::scanner::seen::SeenKeys;
use crate::scanner::segments::{self, Segment};
use crate::signatures::{isobmff, table, FileSignature, Validator};

verus! {

broadcast use vstd::slice::group_slice_axioms;

/// Bytes read at a time: 1 MB.
pub const BUFFER_SIZE: usize = 1_048_576;

/// What the scan of a segment wants next.
#[derive(Debug, Clone, Copy, PartialEq, Eq, Structural)]
pub enum SegmentNext {
    /// A block of the source: from `offset` on, `want` bytes at most.
    Read { offset: u64, want: usize },
    /// Nothing more.
    Finished,
}

/// What the scan of a segment found, and whether a part of it could not be read.
pub struct SegmentResult {
    pub found_files: Vec<FoundFile>,
    pub had_errors: bool,
}

/// The scan of a segment under way.
pub struct SegmentScan {
    pub segment: Segment,
    pub source_size: u64,
    /// Bytes kept from each block, so that a header across two blocks is seen.
    pub reach: usize,
    pub position: u64,
    pub overlap: Vec<u8>,
    pub found_files: Vec<FoundFile>,
    pub seen: SeenKeys,
    pub had_errors: bool,
}

/// The last `reach` bytes of a block, or all of a shorter one.
pub open spec fn kept_bytes(data: Seq<u8>, reach: int) -> Seq<u8> {
    if data.len() >= reach { data.skip(data.len() - reach) } else { data }
}

/// Where a scan stands, the bytes that it kept, and what it found.
#[verifier::ext_equal]
pub struct ScanModel {
    pub position: int,
    pub overlap: Seq<u8>,
    pub finds: Finds,
}

impl ScanModel {
    /// The scan after a block of `len` bytes could not be read.
    pub open spec fn past(self, len: int) -> ScanModel {
        ScanModel { position: self.position + len, overlap: Seq::empty(), finds: self.finds }
    }

    /// The scan after a block was read.
    pub open spec fn after(
        self,
        data: Seq<u8>,
        list: Seq<FileSignature>,
        reach: int,
        source_size: int,
    ) -> ScanModel {
        let both = self.overlap + data;
        ScanModel {
            position: self.position + data.len(),
            overlap: kept_bytes(data, reach),
            finds: buffer::after_positions(
                self.finds,
                list,
                both,
                both.len() as int,
                self.position - self.overlap.len(),
                source_size,
            ),
        }
    }
}

impl SegmentScan {
    /// This scan as a value of the model.
    pub open spec fn model(self) -> ScanModel {
        ScanModel {
            position: self.position as int,
            overlap: self.overlap@,
            finds: self.finds(),
        }
    }

    /// The scan stands inside its segment, behind the bytes that it kept, and knows all its finds.
    pub open spec fn well_formed(self) -> bool {
        &&& self.position <= self.segment.end
        &&& self.overlap@.len() <= self.position
        &&& buffer::is_registered(self.finds())
    }

    /// The formats of all finds are limited.
    pub open spec fn is_limited(self) -> bool {
        forall|k: int|
            0 <= k < self.found_files@.len() ==> (#[trigger] self.found_files@[k]).signature.is_limited()
    }

    /// What was found so far.
    pub open spec fn finds(self) -> Finds {
        Finds { found: self.found_files@, seen: self.seen@ }
    }

    /// How many bytes the scan wants to see next.
    pub open spec fn wanted(self) -> int {
        if BUFFER_SIZE <= self.segment.end - self.position {
            BUFFER_SIZE as int
        } else {
            self.segment.end - self.position
        }
    }

    /// Starts to scan a segment.
    pub fn new(segment: Segment, source_size: u64, reach: usize) -> (scan: Self)
        requires
            segment.start <= segment.end,
        ensures
            scan.well_formed(),
            scan.segment == segment,
            scan.source_size == source_size,
            scan.reach == reach,
            scan.position == segment.start,
            scan.overlap@.len() == 0,
            scan.finds() == (Finds { found: Seq::empty(), seen: Set::empty() }),
            scan.is_limited(),
            !scan.had_errors,
    {
        SegmentScan {
            segment,
            source_size,
            reach,
            position: segment.start,
            overlap: Vec::new(),
            found_files: Vec::new(),
            seen: SeenKeys::new(),
            had_errors: false,
        }
    }

    /// Says what the scan wants next. A cancelled scan keeps what it has found.
    pub fn next(&self, cancelled: bool) -> (next: SegmentNext)
        requires
            self.well_formed(),
        ensures
            next == (if self.position >= self.segment.end || cancelled {
                SegmentNext::Finished
            } else {
                SegmentNext::Read { offset: self.position, want: self.wanted() as usize }
            }),
    {
        if self.position >= self.segment.end || cancelled {
            return SegmentNext::Finished;
        }
        let left: u64 = self.segment.end - self.position;
        let want: usize = if BUFFER_SIZE as u64 <= left { BUFFER_SIZE } else { left as usize };
        SegmentNext::Read { offset: self.position, want }
    }

    /// Scans a block that was read. Returns how many new finds the segment claims.
    pub fn take_block(&mut self, data: &[u8], list: &[FileSignature]) -> (newly_claimed: u64)
        requires
            old(self).well_formed(),
            0 < data@.len() <= old(self).wanted(),
            table::all_well_formed(list@),
        ensures
            final(self).well_formed(),
            final(self).model() == old(self).model().after(
                data@,
                list@,
                old(self).reach as int,
                old(self).source_size as int,
            ),
            final(self).segment == old(self).segment,
            final(self).source_size == old(self).source_size,
            final(self).reach == old(self).reach,
            final(self).had_errors == old(self).had_errors,
            old(self).is_limited() && table::all_limited(list@) ==> final(self).is_limited(),
            newly_claimed == segments::claimed(
                old(self).segment,
                final(self).found_files@.skip(old(self).found_files@.len() as int),
            ).len(),
    {
        let before: usize = self.found_files.len();
        let mut both: Vec<u8> = Vec::new();
        both.extend_from_slice(self.overlap.as_slice());
        both.extend_from_slice(data);
        assert(both@ =~= self.overlap@ + data@);
        let base: u64 = self.position - self.overlap.len() as u64;
        let ghost base_finds = self.finds();
        buffer::check_signatures_in_buffer(
            both.as_slice(),
            base,
            list,
            &mut self.found_files,
            self.source_size,
            &mut self.seen,
        );
        proof {
            let count = both@.len() as int;
            let size = self.source_size as int;
            buffer::law_finds_only_grow(base_finds, list@, both@, count, base as int, size);
            buffer::law_finds_are_real(base_finds, list@, both@, count, base as int, size);
            buffer::law_finds_stay_registered(base_finds, list@, both@, count, base as int, size);
            assert forall|k: int|
                0 <= k < self.found_files@.len() && old(self).is_limited() && table::all_limited(
                    list@,
                ) implies (#[trigger] self.found_files@[k]).signature.is_limited() by {
                let old_count = base_finds.found.len() as int;
                if k < old_count {
                    assert(self.finds().found.take(old_count)[k] == base_finds.found[k]);
                } else {
                    assert(buffer::is_real_find(
                        self.finds().found[k],
                        list@,
                        both@,
                        base as int,
                        size,
                    ));
                }
            }
        }
        let newly_claimed: u64 = segments::count_claimed(
            self.found_files.as_slice(),
            before,
            &self.segment,
        );
        let from: usize = if data.len() >= self.reach { data.len() - self.reach } else { 0 };
        let mut overlap: Vec<u8> = Vec::new();
        overlap.extend_from_slice(vstd::slice::slice_subrange(data, from, data.len()));
        assert(overlap@ =~= kept_bytes(data@, self.reach as int));
        self.overlap = overlap;
        self.position = self.position + data.len() as u64;
        newly_claimed
    }

    /// Passes over a block of `len` bytes that could not be read. The bytes kept before it are
    /// dropped, since they no longer touch what is read next.
    pub fn skip_block(&mut self, len: usize)
        requires
            old(self).well_formed(),
            len <= old(self).wanted(),
        ensures
            final(self).well_formed(),
            final(self).finds() == old(self).finds(),
            final(self).overlap@.len() == 0,
            final(self).position == old(self).position + len,
            final(self).segment == old(self).segment,
            final(self).source_size == old(self).source_size,
            final(self).reach == old(self).reach,
            final(self).had_errors,
            final(self).model() == old(self).model().past(len as int),
            old(self).is_limited() ==> final(self).is_limited(),
    {
        self.had_errors = true;
        self.overlap = Vec::new();
        self.position = self.position + len as u64;
        assert(self.model() =~= old(self).model().past(len as int));
    }

    /// Ends the scan: only what the segment claims is reported. No file is reported twice, and in a
    /// source that can be read the extents of all files can be written as offsets.
    pub fn finish(self) -> (result: SegmentResult)
        requires
            self.well_formed(),
        ensures
            result.found_files@ == segments::claimed(self.segment, self.found_files@),
            result.had_errors == self.had_errors,
            buffer::has_no_repeats(result.found_files@),
            forall|k: int|
                0 <= k < result.found_files@.len() ==> segments::claims(
                    self.segment,
                    #[trigger] result.found_files@[k],
                ),
            self.is_limited() && self.segment.claim_end <= segments::MAX_SOURCE
                ==> refine::extents_fit(result.found_files@),
    {
        proof {
            lemma_claimed(self.segment, self.found_files@);
        }
        let ghost keep = |file: FoundFile| segments::claims(self.segment, file);
        let mut kept: Vec<FoundFile> = Vec::new();
        let mut i: usize = 0;
        while i < self.found_files.len()
            invariant
                i <= self.found_files@.len(),
                keep == (|file: FoundFile| segments::claims(self.segment, file)),
                kept@ == self.found_files@.take(i as int).filter(keep),
            decreases self.found_files@.len() - i,
        {
            let file = self.found_files[i];
            proof {
                let next = self.found_files@.take(i as int + 1);
                assert(next.drop_last() =~= self.found_files@.take(i as int));
                reveal(Seq::filter);
            }
            if self.segment.claim_start <= file.offset && file.offset < self.segment.claim_end {
                kept.push(file);
            }
            i = i + 1;
        }
        assert(self.found_files@.take(self.found_files@.len() as int) =~= self.found_files@);
        SegmentResult { found_files: kept, had_errors: self.had_errors }
    }
}

/// What a segment claims are some of the finds, each once.
pub proof fn lemma_claimed(segment: Segment, files: Seq<FoundFile>)
    requires
        buffer::has_no_repeats(files),
    ensures
        buffer::has_no_repeats(segments::claimed(segment, files)),
        forall|k: int|
            0 <= k < segments::claimed(segment, files).len() ==> {
                &&& segments::claims(segment, #[trigger] segments::claimed(segment, files)[k])
                &&& files.contains(segments::claimed(segment, files)[k])
            },
    decreases files.len(),
{
    reveal(Seq::filter);
    if files.len() > 0 {
        let rest = files.drop_last();
        assert forall|j: int, k: int| 0 <= j < k < rest.len() implies buffer::key_of(
            #[trigger] rest[j],
        ) != buffer::key_of(#[trigger] rest[k]) by {
            assert(buffer::key_of(files[j]) != buffer::key_of(files[k]));
        }
        lemma_claimed(segment, rest);
        let before = segments::claimed(segment, rest);
        let now = segments::claimed(segment, files);
        assert forall|k: int| 0 <= k < now.len() implies {
            &&& segments::claims(segment, #[trigger] now[k])
            &&& files.contains(now[k])
        } by {
            if k < before.len() {
                assert(now[k] == before[k]);
                let p = choose|p: int| 0 <= p < rest.len() && rest[p] == before[k];
                assert(files[p] == now[k]);
            } else {
                assert(files[files.len() - 1] == now[k]);
            }
        }
        assert forall|j: int, k: int| 0 <= j < k < now.len() implies buffer::key_of(
            #[trigger] now[j],
        ) != buffer::key_of(#[trigger] now[k]) by {
            assert(now[j] == before[j]);
            if k < before.len() {
                assert(buffer::key_of(before[j]) != buffer::key_of(before[k]));
            } else {
                let p = choose|p: int| 0 <= p < rest.len() && rest[p] == before[j];
                assert(files[p] == now[j]);
                assert(files[files.len() - 1] == now[k]);
            }
        }
    }
}

/// A find that the segment claims is among those that it reports.
pub proof fn lemma_claimed_are_kept(segment: Segment, files: Seq<FoundFile>, k: int)
    requires
        0 <= k < files.len(),
        segments::claims(segment, files[k]),
    ensures
        segments::claimed(segment, files).contains(files[k]),
    decreases files.len(),
{
    reveal(Seq::filter);
    let before = segments::claimed(segment, files.drop_last());
    let now = segments::claimed(segment, files);
    if k < files.len() - 1 {
        lemma_claimed_are_kept(segment, files.drop_last(), k);
        let p = choose|p: int| 0 <= p < before.len() && before[p] == files[k];
        assert(now[p] == files[k]);
    } else {
        assert(now[before.len() as int] == files[k]);
    }
}

impl SegmentResult {
    /// Result for a segment that could not be read at all.
    pub fn unreadable() -> (result: Self)
        ensures
            result.found_files@.len() == 0,
            result.had_errors,
            buffer::has_no_repeats(result.found_files@),
            refine::extents_fit(result.found_files@),
    {
        SegmentResult { found_files: Vec::new(), had_errors: true }
    }
}

/// The verdict of the validator depends on no more bytes than it needs.
pub open spec fn judges_needed_bytes(signature: FileSignature) -> bool {
    signature.validator matches Some((validator, needed)) ==> forall|one: Seq<u8>, other: Seq<u8>|
        needed <= one.len() && needed <= other.len() && one.take(needed as int) == other.take(
            needed as int,
        ) ==> #[trigger] validator.holds(one) == #[trigger] validator.holds(other)
}

/// The validators of the `ftyp` formats, of BMP and of TIFF judge by the bytes that they need. The
/// others follow the file as far as the data goes.
pub proof fn law_header_validators_judge_needed_bytes(signature: FileSignature)
    requires
        signature.validator matches Some((validator, needed)) ==> {
            ||| validator == Validator::HeicFtyp && needed >= 8
            ||| validator == Validator::Mp4GenericFtyp && needed >= 8
            ||| validator == Validator::Bmp && needed >= 34
            ||| validator == Validator::TiffNotCr2 && needed >= 12
        },
    ensures
        judges_needed_bytes(signature),
{
    if let Some((validator, needed)) = signature.validator {
        assert forall|one: Seq<u8>, other: Seq<u8>|
            needed <= one.len() && needed <= other.len() && one.take(needed as int) == other.take(
                needed as int,
            ) implies #[trigger] validator.holds(one) == #[trigger] validator.holds(other) by {
            assert forall|k: int| 0 <= k < needed implies one[k] == other[k] by {
                assert(one.take(needed as int)[k] == other.take(needed as int)[k]);
            }
            if validator == Validator::HeicFtyp || validator == Validator::Mp4GenericFtyp {
                assert(isobmff::brand(one) =~= isobmff::brand(other));
            }
        }
    }
}

/// Nothing that opens a file is lost at the border of two blocks. Let a block of the source reach
/// from `from` to `border` and the next one hold `next` bytes, and let a signature look at a file
/// that starts in the first block. All the bytes that it looks at stand in that block, or all of
/// them stand in what is scanned with the next one: the bytes kept of the first block, and the
/// next. Where its validator judges by the bytes that it needs, the file opens there too.
pub proof fn law_no_header_is_lost_between_blocks(
    source: Seq<u8>,
    signature: FileSignature,
    reach: int,
    from: int,
    border: int,
    next: int,
    offset: int,
)
    requires
        segments::reach(signature) <= reach,
        0 <= from,
        border + next <= source.len(),
        0 <= next,
        from <= offset < border,
        offset + segments::reach(signature) <= border + next,
    ensures
        ({
            let size = segments::reach(signature);
            let block = source.subrange(from, border);
            let kept = kept_bytes(block, reach);
            let both = kept + source.subrange(border, border + next);
            let start = border - kept.len();
            let looked_at = source.subrange(offset, offset + size);
            &&& offset + size <= border || start <= offset
            &&& if offset + size <= border {
                &&& block.subrange(offset - from, offset - from + size) == looked_at
                &&& judges_needed_bytes(signature) ==> buffer::opens_at(signature, source, offset)
                    == buffer::opens_at(signature, block, offset - from)
            } else {
                &&& both.subrange(offset - start, offset - start + size) == looked_at
                &&& judges_needed_bytes(signature) ==> buffer::opens_at(signature, source, offset)
                    == buffer::opens_at(signature, both, offset - start)
            }
        }),
{
    let size = segments::reach(signature);
    let block = source.subrange(from, border);
    let kept = kept_bytes(block, reach);
    let both = kept + source.subrange(border, border + next);
    let start = border - kept.len();
    assert(kept =~= source.subrange(start, border));
    if offset + size <= border {
        lemma_same_bytes_open_alike(source, offset, block, offset - from, signature);
    } else {
        assert forall|k: int| 0 <= k < both.len() implies both[k] == source[start + k] by {
        }
        lemma_same_bytes_open_alike(source, offset, both, offset - start, signature);
    }
}

/// The same bytes open the same file, wherever they stand.
pub proof fn lemma_same_bytes_open_alike(
    one: Seq<u8>,
    at: int,
    other: Seq<u8>,
    place: int,
    signature: FileSignature,
)
    requires
        0 <= at,
        0 <= place,
        at + segments::reach(signature) <= one.len(),
        place + segments::reach(signature) <= other.len(),
        forall|k: int|
            0 <= k < segments::reach(signature) ==> #[trigger] one[at + k] == other[place + k],
    ensures
        one.subrange(at, at + segments::reach(signature)) == other.subrange(
            place,
            place + segments::reach(signature),
        ),
        judges_needed_bytes(signature) ==> buffer::opens_at(signature, one, at)
            == buffer::opens_at(signature, other, place),
{
    let size = segments::reach(signature);
    let ahead = signature.header_offset as int;
    let (a, b) = (one.subrange(at, at + size), other.subrange(place, place + size));
    assert forall|k: int| 0 <= k < size implies #[trigger] a[k] == b[k] by {
        assert(one[at + k] == other[place + k]);
    }
    assert(a =~= b);
    lemma_same_pattern(one, at, other, place, size, ahead, signature.header@);
    if let Some((extra, offset)) = signature.extra_check {
        lemma_same_pattern(one, at, other, place, size, offset as int, extra@);
    }
    if let Some((validator, needed)) = signature.validator {
        let (a, b) = (one.skip(at + ahead), other.skip(place + ahead));
        assert(a.take(needed as int) =~= b.take(needed as int)) by {
            assert forall|k: int| 0 <= k < needed implies #[trigger] a[k] == b[k] by {
                assert(one[at + (ahead + k)] == other[place + (ahead + k)]);
            }
        }
        if judges_needed_bytes(signature) {
            assert(validator.holds(a) == validator.holds(b));
        }
    }
}

proof fn lemma_same_pattern(
    one: Seq<u8>,
    at: int,
    other: Seq<u8>,
    place: int,
    size: int,
    ahead: int,
    pattern: Seq<u8>,
)
    requires
        0 <= at,
        0 <= place,
        0 <= ahead,
        ahead + pattern.len() <= size,
        at + size <= one.len(),
        place + size <= other.len(),
        forall|k: int| 0 <= k < size ==> #[trigger] one[at + k] == other[place + k],
    ensures
        bytes::pattern_at(one, at + ahead, pattern) == bytes::pattern_at(
            other,
            place + ahead,
            pattern,
        ),
{
    assert forall|k: int|
        #![trigger pattern[k]]
        0 <= k < pattern.len() implies one[at + ahead + k] == other[place + ahead + k] by {
        assert(one[at + (ahead + k)] == other[place + (ahead + k)]);
    }
}

/// A segment reports the finds that open inside its claim, and no others.
pub proof fn law_segments_report_what_they_claim(
    segment: Segment,
    files: Seq<FoundFile>,
    file: FoundFile,
)
    ensures
        segments::claimed(segment, files).contains(file) <==> files.contains(file)
            && segment.claim_start <= file.offset && file.offset < segment.claim_end,
    decreases files.len(),
{
    reveal(Seq::filter);
    if files.len() > 0 {
        let front = files.drop_last();
        law_segments_report_what_they_claim(segment, front, file);
        let (before, now) = (segments::claimed(segment, front), segments::claimed(segment, files));
        if before.contains(file) {
            let k = choose|k: int| 0 <= k < before.len() && before[k] == file;
            assert(now[k] == file);
        }
        if front.contains(file) {
            let k = choose|k: int| 0 <= k < front.len() && front[k] == file;
            assert(files[k] == file);
        }
        if file == files.last() {
            assert(files[files.len() - 1] == file);
            if segments::claims(segment, file) {
                assert(now[before.len() as int] == file);
            }
        }
        if files.contains(file) {
            let k = choose|k: int| 0 <= k < files.len() && files[k] == file;
            if k < front.len() {
                assert(front[k] == file);
            }
        }
        if now.contains(file) {
            let k = choose|k: int| 0 <= k < now.len() && now[k] == file;
            if k < before.len() {
                assert(before[k] == file);
            }
        }
    }
}

/// A block that cannot be read costs no find from before it. What is read behind it is taken for what
/// stands there in the source, and nothing from before the gap is put in front of it.
pub proof fn law_gaps_move_nothing(scan: ScanModel, len: int, data: Seq<u8>, reach: int)
    requires
        0 <= len,
    ensures
        scan.past(len).finds == scan.finds,
        scan.past(len).position == scan.position + len,
        scan.past(len).overlap + data == data,
        scan.past(len).position - scan.past(len).overlap.len() == scan.position + len,
{
    assert(scan.past(len).overlap + data =~= data);
}

/// A scan reads on where the last block ended, a megabyte at most, up to the end of its segment.
pub proof fn law_blocks_follow_each_other(scan: SegmentScan)
    requires
        scan.well_formed(),
    ensures
        scan.wanted() == if scan.segment.end - scan.position > 1_048_576 {
            1_048_576
        } else {
            scan.segment.end - scan.position
        },
{
}

} // verus!
