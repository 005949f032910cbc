//! A whole scan: the segments to read, the passes that follow, and what comes out of them.

use vstd::prelude::*;

use crate::scanner::assemble::{self, ScanResult};
use crate::scanner::buffer;
use crate::scanner::ends::{self, EndResult};
use crate::scanner::footer_search::FooterSearch;
use crate::scanner::found::FoundFile;
use crate::scanner::refine::{self, AudioPass, AudioTurn};
use crate::scanner::segment_scan::SegmentResult;
use crate::scanner::segments::{self, Segment};
use crate::scanner::suppress;
use crate::scanner::walk_audio::AudioWalk;
use crate::scanner::walk_boxes::BoxWalk;
use crate::signatures;

verus! {

/// The segments that a scan reads: the whole source for one thread, otherwise one part each.
pub open spec fn planned(file_size: int, num_threads: int, reach: int) -> Seq<Segment> {
    if num_threads <= 1 {
        seq![
            Segment { start: 0, end: file_size as u64, claim_start: 0, claim_end: file_size as u64 },
        ]
    } else {
        Seq::new(
            num_threads as nat,
            |i: int| segments::segment_spec(file_size, num_threads, reach, i),
        )
    }
}

/// The segments that a scan reads.
pub fn plan_segments(file_size: u64, num_threads: usize, reach: usize) -> (plan: Vec<Segment>)
    ensures
        plan@ == planned(file_size as int, num_threads as int, reach as int),
{
    if num_threads <= 1 {
        let mut plan: Vec<Segment> = Vec::new();
        plan.push(Segment { start: 0, end: file_size, claim_start: 0, claim_end: file_size });
        assert(plan@ =~= planned(file_size as int, num_threads as int, reach as int));
        plan
    } else {
        segments::calculate_segments(file_size, num_threads, reach as u64)
    }
}

/// The pass that a scan is in, once its segments are read.
#[derive(Debug, Clone, Copy, PartialEq, Eq, Structural)]
pub enum ScanPass {
    /// Searching the footers that lie behind the buffer of the scan.
    Footers,
    /// Following the audio chains.
    Audio,
    /// Before the boxes are followed, the source is measured again.
    Measure,
    /// Following the boxes.
    Boxes,
    /// Nothing left to read.
    Settled,
}

/// What a scan does next.
pub enum ScanWork {
    /// Nothing to read in this step.
    Passed,
    /// Search the footer of the find at this position.
    Footer(usize, FooterSearch),
    /// Follow the audio chain of the find at this position.
    Audio(usize, AudioWalk),
    /// Measure the source.
    Measure,
    /// Follow the boxes of the find at this position.
    Boxes(usize, BoxWalk),
    /// The scan is over.
    Finished,
}

/// A scan whose segments are read.
pub struct ScanRun {
    pub file_size: u64,
    pub num_threads: usize,
    pub files: Vec<FoundFile>,
    pub had_errors: bool,
    pub pass: ScanPass,
    /// Position of the next find in the passes over footers and boxes.
    pub at: usize,
    pub audio: AudioPass,
    /// Size of the source, as measured before the boxes are followed.
    pub source_size: u64,
}

/// The finds of all segments, before their ends are settled.
pub open spec fn first_finds(num_threads: int, parts: Seq<SegmentResult>) -> Seq<FoundFile> {
    if num_threads <= 1 {
        assemble::joined(parts, parts.len() as int)
    } else {
        assemble::numbered(
            assemble::without_repeats(
                assemble::by_offset(assemble::joined(parts, parts.len() as int)),
            ),
        )
    }
}

/// A segment could not be read in full.
pub open spec fn any_errors(parts: Seq<SegmentResult>) -> bool {
    exists|i: int| 0 <= i < parts.len() && (#[trigger] parts[i]).had_errors
}

proof fn lemma_joined_extents_fit(parts: Seq<SegmentResult>, n: int)
    requires
        0 <= n <= parts.len(),
        forall|i: int|
            0 <= i < parts.len() ==> refine::extents_fit((#[trigger] parts[i]).found_files@),
    ensures
        refine::extents_fit(assemble::joined(parts, n)),
    decreases n,
{
    if n > 0 {
        lemma_joined_extents_fit(parts, n - 1);
    }
}

impl ScanRun {
    /// The run is in a state that its steps lead to.
    pub open spec fn well_formed(self) -> bool {
        &&& refine::extents_fit(self.files@)
        &&& self.at <= self.files@.len()
        &&& self.pass == ScanPass::Audio ==> self.audio.well_formed(self.files@.len() as int)
    }

    /// Takes what the segments gave. A thread that broke down counts as a segment that could not
    /// be read; what the others found is kept.
    pub fn new(file_size: u64, num_threads: usize, parts: Vec<SegmentResult>) -> (run: Self)
        requires
            num_threads <= 1 ==> parts@.len() == 1,
            forall|i: int|
                0 <= i < parts@.len() ==> refine::extents_fit((#[trigger] parts@[i]).found_files@),
        ensures
            run.well_formed(),
            run.files@ == first_finds(num_threads as int, parts@),
            run.had_errors == any_errors(parts@),
            run.file_size == file_size,
            run.num_threads == num_threads,
            run.pass == ScanPass::Footers,
            run.at == 0,
    {
        let mut files: Vec<FoundFile> = Vec::new();
        let mut had_errors = false;
        if num_threads <= 1 {
            let part = &parts[0];
            let mut i: usize = 0;
            while i < part.found_files.len()
                invariant
                    i <= part.found_files@.len(),
                    files@ =~= part.found_files@.take(i as int),
                decreases part.found_files@.len() - i,
            {
                files.push(part.found_files[i]);
                i = i + 1;
            }
            had_errors = part.had_errors;
            proof {
                reveal_with_fuel(assemble::joined, 2);
                assert(files@ =~= assemble::joined(parts@, 1));
                assert(parts@[0].had_errors == any_errors(parts@));
            }
        } else {
            let merged = assemble::merge_segments(&parts);
            files = merged.0;
            had_errors = merged.1;
        }
        proof {
            lemma_joined_extents_fit(parts@, parts@.len() as int);
            if num_threads > 1 {
                assemble::lemma_merged_extents_fit(
                    assemble::joined(parts@, parts@.len() as int),
                );
            }
        }
        let none: Vec<FoundFile> = Vec::new();
        let audio = AudioPass::new(&none);
        ScanRun {
            file_size,
            num_threads,
            files,
            had_errors,
            pass: ScanPass::Footers,
            at: 0,
            audio,
            source_size: 0,
        }
    }

    /// The find at this position is next in a pass over footers or boxes.
    pub open spec fn has_next(self, cancelled: bool) -> bool {
        !cancelled && self.at < self.files@.len()
    }

    /// Takes the next step. Once cancelled, nothing is read any more.
    pub fn step(&mut self, cancelled: bool) -> (work: ScanWork)
        requires
            old(self).well_formed(),
        ensures
            final(self).well_formed(),
            refine::same_files(final(self).files@, old(self).files@),
            final(self).had_errors == old(self).had_errors,
            final(self).file_size == old(self).file_size,
            final(self).num_threads == old(self).num_threads,
            final(self).source_size == old(self).source_size,
            cancelled ==> work is Passed || work is Measure || work is Finished,
            match old(self).pass {
                ScanPass::Footers => {
                    &&& final(self).files@ == old(self).files@
                    &&& if old(self).has_next(cancelled) {
                        let file = old(self).files@[old(self).at as int];
                        &&& final(self).pass == ScanPass::Footers
                        &&& final(self).at == old(self).at + 1
                        &&& if !file.footer_found && file.signature.footer is Some {
                            work matches ScanWork::Footer(i, search) && i == old(self).at
                                && search@.well_formed() && search@ == refine::footer_search_of(file)
                        } else {
                            work is Passed
                        }
                    } else {
                        &&& work is Passed
                        &&& final(self).pass == ScanPass::Audio
                        &&& final(self).audio.at == 0
                        &&& final(self).audio.settled_to == 0
                        &&& crate::scanner::order::is_order(
                            refine::offset_keys(old(self).files@),
                            final(self).audio.order@,
                        )
                    }
                },
                ScanPass::Audio => {
                    if cancelled || old(self).audio.at >= old(self).files@.len() {
                        &&& work is Passed
                        &&& final(self).pass == ScanPass::Measure
                        &&& final(self).files@ == old(self).files@
                    } else {
                        let i = old(self).audio.order@[old(self).audio.at as int] as int;
                        let (file, settled_to, walk) = refine::audio_turn(
                            old(self).files@[i],
                            old(self).audio.settled_to as int,
                        );
                        &&& final(self).pass == ScanPass::Audio
                        &&& final(self).files@ == old(self).files@.update(i, file)
                        &&& final(self).audio.order == old(self).audio.order
                        &&& final(self).audio.at == old(self).audio.at + 1
                        &&& final(self).audio.settled_to == settled_to
                        &&& if walk {
                            work matches ScanWork::Audio(k, chain) && k == i && chain.well_formed()
                                && chain == refine::audio_walk_of(file)
                        } else {
                            work is Passed
                        }
                    }
                },
                ScanPass::Measure => {
                    &&& work is Measure
                    &&& final(self).pass == ScanPass::Measure
                    &&& final(self).files@ == old(self).files@
                },
                ScanPass::Boxes => {
                    &&& final(self).files@ == old(self).files@
                    &&& if old(self).has_next(cancelled) {
                        let file = old(self).files@[old(self).at as int];
                        &&& final(self).pass == ScanPass::Boxes
                        &&& final(self).at == old(self).at + 1
                        &&& if !file.footer_found && signatures::is_box_format(
                            file.signature.name@,
                        ) {
                            work matches ScanWork::Boxes(i, walk) && i == old(self).at
                                && walk.well_formed() && walk == refine::box_walk_of(
                                file,
                                old(self).source_size,
                            )
                        } else {
                            work is Passed
                        }
                    } else {
                        &&& work is Passed
                        &&& final(self).pass == ScanPass::Settled
                    }
                },
                ScanPass::Settled => {
                    &&& work is Finished
                    &&& final(self).pass == ScanPass::Settled
                    &&& final(self).files@ == old(self).files@
                },
            },
    {
        match self.pass {
            ScanPass::Footers => {
                if cancelled || self.at >= self.files.len() {
                    self.audio = AudioPass::new(&self.files);
                    self.pass = ScanPass::Audio;
                    return ScanWork::Passed;
                }
                let i: usize = self.at;
                self.at = self.at + 1;
                match refine::footer_search(&self.files[i]) {
                    Some(search) => ScanWork::Footer(i, search),
                    None => ScanWork::Passed,
                }
            },
            ScanPass::Audio => {
                match self.audio.turn(&mut self.files, cancelled) {
                    AudioTurn::Finished => {
                        self.pass = ScanPass::Measure;
                        ScanWork::Passed
                    },
                    AudioTurn::Passed => ScanWork::Passed,
                    AudioTurn::Walk(i) => {
                        match refine::audio_walk(&self.files[i]) {
                            Some(walk) => ScanWork::Audio(i, walk),
                            None => ScanWork::Passed,
                        }
                    },
                }
            },
            ScanPass::Measure => ScanWork::Measure,
            ScanPass::Boxes => {
                if cancelled || self.at >= self.files.len() {
                    self.pass = ScanPass::Settled;
                    return ScanWork::Passed;
                }
                let i: usize = self.at;
                self.at = self.at + 1;
                match refine::box_walk(&self.files[i], self.source_size) {
                    Some(walk) => ScanWork::Boxes(i, walk),
                    None => ScanWork::Passed,
                }
            },
            ScanPass::Settled => ScanWork::Finished,
        }
    }

    /// Notes where the search for a footer ended, if it found one.
    pub fn note_footer(&mut self, i: usize, size: Option<u64>)
        requires
            old(self).well_formed(),
            i < old(self).files@.len(),
        ensures
            final(self).well_formed(),
            refine::same_files(final(self).files@, old(self).files@),
            final(self).files@ == (match size {
                Some(size) => old(self).files@.update(
                    i as int,
                    (FoundFile { size: size, footer_found: true, ..old(self).files@[i as int] }),
                ),
                None => old(self).files@,
            }),
            (ScanRun { files: old(self).files, ..*final(self) }) == *old(self),
    {
        if let Some(size) = size {
            let file = refine::closed_by_footer(self.files[i], size);
            self.files.set(i, file);
        }
    }

    /// Notes what following an audio chain came to.
    pub fn note_audio(&mut self, i: usize, result: EndResult)
        requires
            old(self).well_formed(),
            old(self).pass == ScanPass::Audio,
            i < old(self).files@.len(),
        ensures
            final(self).well_formed(),
            refine::same_files(final(self).files@, old(self).files@),
            final(self).files@ == old(self).files@.update(
                i as int,
                ends::concluded(old(self).files@[i as int], result),
            ),
            final(self).audio.order == old(self).audio.order,
            final(self).audio.at == old(self).audio.at,
            final(self).audio.settled_to == refine::settled_after(
                old(self).files@[i as int].offset as int,
                old(self).audio.settled_to as int,
                result,
            ),
            (ScanRun { files: old(self).files, audio: old(self).audio, ..*final(self) })
                == *old(self),
    {
        self.audio.note(&mut self.files, i, result);
    }

    /// Takes the measured size of the source. Without one, no boxes are followed.
    pub fn note_size(&mut self, size: Option<u64>)
        requires
            old(self).well_formed(),
            old(self).pass == ScanPass::Measure,
        ensures
            final(self).well_formed(),
            final(self).files@ == old(self).files@,
            final(self).had_errors == old(self).had_errors,
            final(self).file_size == old(self).file_size,
            final(self).num_threads == old(self).num_threads,
            match size {
                Some(size) => final(self).pass == ScanPass::Boxes && final(self).at == 0
                    && final(self).source_size == size,
                None => final(self).pass == ScanPass::Settled,
            },
    {
        match size {
            Some(size) => {
                self.pass = ScanPass::Boxes;
                self.at = 0;
                self.source_size = size;
            },
            None => {
                self.pass = ScanPass::Settled;
            },
        }
    }

    /// Notes what following the boxes of a find came to.
    pub fn note_boxes(&mut self, i: usize, result: EndResult)
        requires
            old(self).well_formed(),
            i < old(self).files@.len(),
        ensures
            final(self).well_formed(),
            refine::same_files(final(self).files@, old(self).files@),
            final(self).files@ == old(self).files@.update(
                i as int,
                ends::concluded(old(self).files@[i as int], result),
            ),
            (ScanRun { files: old(self).files, ..*final(self) }) == *old(self),
    {
        let file = ends::conclude(self.files[i], result);
        self.files.set(i, file);
    }

    /// Ends the scan: drops the finds that lie inside others, now that the ends are settled, and
    /// counts what is left. `total` is the number of bytes that were read.
    pub fn finish(self, total: u64, cancelled: bool) -> (result: ScanResult)
        ensures
            result.found_files@ == suppress::without_contained(self.files@),
            result.bytes_scanned == (if self.num_threads > 1 && total > self.file_size {
                self.file_size
            } else {
                total
            }),
            result.had_errors == self.had_errors,
            result.cancelled == cancelled,
            assemble::counts_are_right(result),
    {
        let mut files = self.files;
        suppress::suppress_contained(&mut files);
        let bytes: u64 = assemble::reported_bytes(total, self.file_size, self.num_threads);
        ScanResult::new(files, bytes, self.had_errors, cancelled)
    }
}

/// What the scans of the planned segments report: each segment what it claims, no file twice.
pub open spec fn are_reports(plan: Seq<Segment>, parts: Seq<SegmentResult>) -> bool {
    &&& parts.len() == plan.len()
    &&& forall|i: int|
        0 <= i < parts.len() ==> buffer::has_no_repeats((#[trigger] parts[i]).found_files@)
            && all_claimed(plan[i], parts[i].found_files@)
}

/// The segment claims all of these files.
pub open spec fn all_claimed(segment: Segment, files: Seq<FoundFile>) -> bool {
    forall|k: int| 0 <= k < files.len() ==> segments::claims(segment, #[trigger] files[k])
}

/// A scan reports no file twice, whatever its segments are: no two files of its result have the
/// same offset and extension. `files` are the finds of the segments, however their ends were
/// settled.
pub proof fn law_no_file_is_reported_twice(
    file_size: int,
    num_threads: int,
    reach: int,
    parts: Seq<SegmentResult>,
    files: Seq<FoundFile>,
)
    requires
        0 <= file_size <= u64::MAX,
        0 <= reach,
        are_reports(planned(file_size, num_threads, reach), parts),
        assemble::joined(parts, parts.len() as int).len() <= usize::MAX,
        refine::same_files(files, first_finds(num_threads, parts)),
    ensures
        buffer::has_no_repeats(suppress::without_contained(files)),
{
    let all = assemble::joined(parts, parts.len() as int);
    let finds = first_finds(num_threads, parts);
    lemma_joined_has_no_repeats(file_size, num_threads, reach, parts);
    if num_threads > 1 {
        assemble::law_merging_adds_no_repeats(all);
    }
    assert forall|j: int, k: int| 0 <= j < k < files.len() implies buffer::key_of(
        #[trigger] files[j],
    ) != buffer::key_of(#[trigger] files[k]) by {
        assert(buffer::key_of(finds[j]) != buffer::key_of(finds[k]));
    }
    suppress::law_dropping_adds_no_repeats(files);
}

/// The segments together report no file twice.
pub proof fn lemma_joined_has_no_repeats(
    file_size: int,
    num_threads: int,
    reach: int,
    parts: Seq<SegmentResult>,
)
    requires
        0 <= file_size <= u64::MAX,
        0 <= reach,
        are_reports(planned(file_size, num_threads, reach), parts),
    ensures
        buffer::has_no_repeats(assemble::joined(parts, parts.len() as int)),
{
    if num_threads <= 1 {
        reveal_with_fuel(assemble::joined, 2);
        assert(assemble::joined(parts, 1) =~= parts[0].found_files@);
    } else {
        lemma_segments_do_not_meet(file_size, num_threads, reach, parts, num_threads);
    }
}

proof fn lemma_segments_do_not_meet(
    file_size: int,
    num_threads: int,
    reach: int,
    parts: Seq<SegmentResult>,
    n: int,
)
    requires
        0 <= file_size <= u64::MAX,
        0 <= reach,
        1 < num_threads,
        0 <= n <= num_threads,
        are_reports(planned(file_size, num_threads, reach), parts),
    ensures
        buffer::has_no_repeats(assemble::joined(parts, n)),
        forall|k: int|
            0 <= k < assemble::joined(parts, n).len() ==> (#[trigger] assemble::joined(
                parts,
                n,
            )[k]).offset < segments::claim_border(file_size, num_threads, n),
    decreases n,
{
    if n > 0 {
        lemma_segments_do_not_meet(file_size, num_threads, reach, parts, n - 1);
        segments::law_borders_advance(file_size, num_threads, n - 1);
        let before = assemble::joined(parts, n - 1);
        let more = parts[n - 1].found_files@;
        let now = assemble::joined(parts, n);
        let plan = planned(file_size, num_threads, reach);
        assert(plan[n - 1] == segments::segment_spec(file_size, num_threads, reach, n - 1));
        assert forall|k: int| 0 <= k < now.len() implies (#[trigger] now[k]).offset
            < segments::claim_border(file_size, num_threads, n) by {
            if k < before.len() {
                assert(now[k] == before[k]);
            } else {
                assert(now[k] == more[k - before.len()]);
            }
        }
        assert forall|j: int, k: int| 0 <= j < k < now.len() implies buffer::key_of(
            #[trigger] now[j],
        ) != buffer::key_of(#[trigger] now[k]) by {
            if k < before.len() {
                assert(buffer::key_of(before[j]) != buffer::key_of(before[k]));
            } else if j < before.len() {
                assert(now[j] == before[j]);
                assert(now[k] == more[k - before.len()]);
            } else {
                assert(buffer::key_of(more[j - before.len()]) != buffer::key_of(
                    more[k - before.len()],
                ));
            }
        }
    }
}

/// Every place of the source is claimed by exactly one of the segments that a scan reads.
pub proof fn law_the_plan_claims_every_place_once(
    file_size: int,
    num_threads: int,
    reach: int,
    offset: int,
)
    requires
        0 <= offset < file_size <= u64::MAX,
        0 <= reach,
    ensures
        exists|i: int|
            0 <= i < planned(file_size, num_threads, reach).len() && {
                let segment = #[trigger] planned(file_size, num_threads, reach)[i];
                segment.claim_start <= offset < segment.claim_end
            },
        forall|i: int, j: int|
            0 <= i < planned(file_size, num_threads, reach).len() && 0 <= j < planned(
                file_size,
                num_threads,
                reach,
            ).len() && (#[trigger] planned(file_size, num_threads, reach)[i]).claim_start <= offset
                < planned(file_size, num_threads, reach)[i].claim_end && (#[trigger] planned(
                file_size,
                num_threads,
                reach,
            )[j]).claim_start <= offset < planned(file_size, num_threads, reach)[j].claim_end ==> i
                == j,
        planned(file_size, num_threads, reach).len() == if num_threads <= 1 { 1 } else { num_threads },
{
    let plan = planned(file_size, num_threads, reach);
    if num_threads <= 1 {
        assert(plan[0].claim_start <= offset < plan[0].claim_end);
    } else {
        segments::law_claims_tile_the_source(file_size, num_threads, offset);
        assert forall|i: int| 0 <= i < num_threads implies {
            let segment = #[trigger] plan[i];
            segment.claim_start == segments::claim_border(file_size, num_threads, i)
                && segment.claim_end == segments::claim_border(file_size, num_threads, i + 1)
        } by {
            segments::law_borders_advance(file_size, num_threads, i);
        }
        let i = choose|i: int|
            0 <= i < num_threads && #[trigger] segments::claim_border(file_size, num_threads, i)
                <= offset < segments::claim_border(file_size, num_threads, i + 1);
        assert(plan[i].claim_start <= offset < plan[i].claim_end);
    }
}

} // verus!
