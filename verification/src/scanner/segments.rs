//! Dividing a source among scanning threads.

use vstd::prelude::*;

use crate::scanner::found::FoundFile;
use crate::signatures::FileSignature;
use crate::util;

verus! {

broadcast use vstd::slice::group_slice_axioms;

/// Unit to which the borders of a segment are aligned.
pub const ALIGNMENT: u64 = 512;

/// Largest source that can be read: no offset beyond this can be sought.
pub const MAX_SOURCE: u64 = 0x7FFF_FFFF_FFFF_FFFF;

/// Part of the source that one thread scans. It reads from `start` to `end`, and reports only
/// what opens from `claim_start` on and before `claim_end`.
#[derive(Debug, Clone, Copy, PartialEq, Eq, Structural)]
pub struct Segment {
    pub start: u64,
    pub end: u64,
    pub claim_start: u64,
    pub claim_end: u64,
}

/// Where the claim of segment `i` of `count` starts. Past the last segment, the end of the source.
pub open spec fn claim_border(file_size: int, count: int, i: int) -> int {
    if i <= 0 {
        0
    } else if i >= count {
        file_size
    } else {
        ((i * (file_size / count)) / 512) * 512
    }
}

/// Segment `i` of `count`: it claims what lies between two borders, and reads `overlap` further on
/// both sides as far as the source goes.
pub open spec fn segment_spec(file_size: int, count: int, overlap: int, i: int) -> Segment {
    let from = claim_border(file_size, count, i);
    let to = claim_border(file_size, count, i + 1);
    Segment {
        start: (if from >= overlap { from - overlap } else { 0 }) as u64,
        end: (if to + overlap <= file_size { to + overlap } else { file_size }) as u64,
        claim_start: from as u64,
        claim_end: to as u64,
    }
}

/// The borders never go back, never leave the source, and the inner ones are aligned.
pub proof fn law_borders_advance(file_size: int, count: int, i: int)
    requires
        0 <= file_size,
        1 <= count,
        0 <= i < count,
    ensures
        0 <= claim_border(file_size, count, i) <= claim_border(file_size, count, i + 1)
            <= file_size,
        claim_border(file_size, count, i) % 512 == 0,
        claim_border(file_size, count, 0) == 0,
        claim_border(file_size, count, count) == file_size,
{
    let chunk = file_size / count;
    assert(0 <= i * chunk <= (i + 1) * chunk <= count * chunk <= file_size) by (nonlinear_arith)
        requires
            0 <= i < count,
            0 <= file_size,
            chunk == file_size / count,
    ;
}

/// The claims tile the source: every offset belongs to exactly one segment.
pub proof fn law_claims_tile_the_source(file_size: int, count: int, offset: int)
    requires
        1 <= count,
        0 <= offset < file_size,
    ensures
        exists|i: int|
            0 <= i < count && #[trigger] claim_border(file_size, count, i) <= offset
                < claim_border(file_size, count, i + 1),
        forall|i: int, j: int|
            0 <= i < count && 0 <= j < count && #[trigger] claim_border(file_size, count, i)
                <= offset < claim_border(file_size, count, i + 1) && #[trigger] claim_border(
                file_size,
                count,
                j,
            ) <= offset < claim_border(file_size, count, j + 1) ==> i == j,
{
    law_borders_advance(file_size, count, 0);
    lemma_border_below(file_size, count, offset, count);
    assert forall|i: int, j: int|
        0 <= i < count && 0 <= j < count && #[trigger] claim_border(file_size, count, i) <= offset
            < claim_border(file_size, count, i + 1) && #[trigger] claim_border(file_size, count, j)
            <= offset < claim_border(file_size, count, j + 1) implies i == j by {
        if i < j {
            lemma_borders_are_ordered(file_size, count, i + 1, j);
        }
        if j < i {
            lemma_borders_are_ordered(file_size, count, j + 1, i);
        }
    }
}

proof fn lemma_border_below(file_size: int, count: int, offset: int, upto: int)
    requires
        1 <= count,
        0 <= offset,
        0 <= upto <= count,
        offset < claim_border(file_size, count, upto),
    ensures
        exists|i: int|
            0 <= i < count && #[trigger] claim_border(file_size, count, i) <= offset
                < claim_border(file_size, count, i + 1),
    decreases upto,
{
    if upto > 0 {
        if claim_border(file_size, count, upto - 1) <= offset {
            assert(claim_border(file_size, count, upto - 1) <= offset < claim_border(
                file_size,
                count,
                (upto - 1) + 1,
            ));
        } else {
            lemma_border_below(file_size, count, offset, upto - 1);
        }
    }
}

proof fn lemma_borders_are_ordered(file_size: int, count: int, i: int, j: int)
    requires
        0 <= file_size,
        1 <= count,
        0 <= i <= j <= count,
    ensures
        claim_border(file_size, count, i) <= claim_border(file_size, count, j),
    decreases j - i,
{
    if i < j {
        law_borders_advance(file_size, count, i);
        lemma_borders_are_ordered(file_size, count, i + 1, j);
    }
}

/// Divides a source of `file_size` bytes among `num_threads` threads.
pub fn calculate_segments(file_size: u64, num_threads: usize, overlap_size: u64) -> (segments: Vec<
    Segment,
>)
    requires
        1 <= num_threads,
    ensures
        segments@ == Seq::new(
            num_threads as nat,
            |i: int| segment_spec(file_size as int, num_threads as int, overlap_size as int, i),
        ),
{
    let chunk: u64 = file_size / num_threads as u64;
    let mut segments: Vec<Segment> = Vec::new();
    let mut i: usize = 0;
    let mut from: u64 = 0;
    while i < num_threads
        invariant
            1 <= num_threads,
            i <= num_threads,
            chunk == file_size / num_threads as u64,
            from == claim_border(file_size as int, num_threads as int, i as int),
            segments@ == Seq::new(
                i as nat,
                |k: int|
                    segment_spec(file_size as int, num_threads as int, overlap_size as int, k),
            ),
        decreases num_threads - i,
    {
        proof {
            law_borders_advance(file_size as int, num_threads as int, i as int);
            assert((i + 1) * chunk <= num_threads * chunk <= file_size) by (nonlinear_arith)
                requires
                    0 <= i < num_threads,
                    chunk == file_size / num_threads as u64,
            ;
        }
        let to: u64 = if i == num_threads - 1 {
            file_size
        } else {
            ((i as u64 + 1) * chunk / ALIGNMENT) * ALIGNMENT
        };
        assert(to == claim_border(file_size as int, num_threads as int, i + 1));
        let start: u64 = if from >= overlap_size { from - overlap_size } else { 0 };
        let end: u64 = if overlap_size <= file_size - to { to + overlap_size } else { file_size };
        segments.push(Segment { start, end, claim_start: from, claim_end: to });
        i = i + 1;
        from = to;
        assert(segments@ =~= Seq::new(
            i as nat,
            |k: int| segment_spec(file_size as int, num_threads as int, overlap_size as int, k),
        ));
    }
    segments
}

/// Every segment reads all that it claims, and claims nothing outside the source.
pub proof fn law_segments_read_their_claims(file_size: int, count: int, overlap: int, i: int)
    requires
        0 <= file_size <= u64::MAX,
        1 <= count,
        0 <= overlap,
        0 <= i < count,
    ensures
        ({
            let segment = segment_spec(file_size, count, overlap, i);
            segment.start <= segment.claim_start <= segment.claim_end <= segment.end <= file_size
        }),
{
    law_borders_advance(file_size, count, i);
}

/// No opening is lost at the border of two segments: the segment that claims a place of the source
/// reads all the bytes that stand there, as many as the overlap has, as far as the source goes.
pub proof fn law_no_opening_is_lost_between_segments(
    file_size: int,
    count: int,
    reach: int,
    i: int,
    offset: int,
)
    requires
        0 <= file_size <= u64::MAX,
        1 <= count,
        0 <= reach,
        0 <= i < count,
        offset + reach <= file_size,
    ensures
        ({
            let segment = segment_spec(file_size, count, reach, i);
            segment.claim_start <= offset < segment.claim_end ==> segment.start <= offset && offset
                + reach <= segment.end
        }),
{
    law_borders_advance(file_size, count, i);
}

/// Smallest part of a file that is worth a thread of its own: 16 MB.
pub const MIN_SIZE_PER_THREAD: u64 = 16_777_216;

/// How many threads scan a source: one for a device, where reading in order is fastest, and for a
/// small file; else as many as there are cores and parts of 16 MB, and eight at most.
pub open spec fn thread_count(is_device: bool, file_size: int, cpu_cores: int) -> int {
    let by_size = file_size / MIN_SIZE_PER_THREAD as int;
    let most = if by_size <= 8 { by_size } else { 8 };
    let wanted = if cpu_cores <= most { cpu_cores } else { most };
    if is_device || file_size < MIN_SIZE_PER_THREAD || wanted < 1 {
        1
    } else {
        wanted
    }
}

/// Chooses how many threads scan a source on a machine with `cpu_cores` cores.
pub fn select_thread_count(source_path: &str, file_size: u64, cpu_cores: usize) -> (count: usize)
    ensures
        count == thread_count(
            util::names_device(source_path@),
            file_size as int,
            cpu_cores as int,
        ),
        1 <= count <= 8,
{
    if util::is_physical_device(source_path) || file_size < MIN_SIZE_PER_THREAD {
        return 1;
    }
    let by_size: u64 = file_size / MIN_SIZE_PER_THREAD;
    let most: usize = if by_size <= 8 { by_size as usize } else { 8 };
    let wanted: usize = if cpu_cores <= most { cpu_cores } else { most };
    if wanted < 1 {
        1
    } else {
        wanted
    }
}

/// How long a scan is expected to take.
#[derive(Debug, Clone, Copy, PartialEq, Eq, Structural)]
pub enum Estimate {
    /// Not worth telling.
    Brief,
    /// So many seconds.
    Seconds(u64),
    /// Long enough for a coffee.
    Long { mins: u64, secs: u64 },
}

/// Megabytes per second expected of a scan: a device reads at 40, a file at 150 per thread, and
/// more than four threads gain nothing.
pub open spec fn expected_speed(is_device: bool, num_threads: int) -> int {
    let single: int = if is_device { 40 } else { 150 };
    if num_threads > 4 {
        4 * single
    } else if num_threads > 1 {
        num_threads * single
    } else {
        single
    }
}

/// How long a scan is expected to take.
pub open spec fn estimate_of(is_device: bool, file_size: int, num_threads: int) -> Estimate {
    let secs = file_size / (expected_speed(is_device, num_threads) * 1_048_576);
    if secs > 30 {
        Estimate::Long { mins: (secs / 60) as u64, secs: (secs % 60) as u64 }
    } else if secs > 5 {
        Estimate::Seconds(secs as u64)
    } else {
        Estimate::Brief
    }
}

/// Estimates how long a scan takes.
pub fn estimate_scan(source_path: &str, file_size: u64, num_threads: usize) -> (estimate: Estimate)
    ensures
        estimate == estimate_of(
            util::names_device(source_path@),
            file_size as int,
            num_threads as int,
        ),
{
    let single: u64 = if util::is_physical_device(source_path) { 40 } else { 150 };
    let speed: u64 = if num_threads > 4 {
        4 * single
    } else if num_threads > 1 {
        num_threads as u64 * single
    } else {
        single
    };
    let secs: u64 = file_size / (speed * 1_048_576);
    if secs > 30 {
        Estimate::Long { mins: secs / 60, secs: secs % 60 }
    } else if secs > 5 {
        Estimate::Seconds(secs)
    } else {
        Estimate::Brief
    }
}

/// The larger of two numbers.
pub open spec fn larger(a: int, b: int) -> int {
    if a >= b { a } else { b }
}

/// How many bytes from the start of a file a signature looks at to recognise it: its header, its
/// further bytes, the bytes that its validator needs and its size field. The last two count from
/// the header.
pub open spec fn reach(signature: FileSignature) -> int {
    let header_end = signature.header_offset + signature.header@.len();
    let extra_end = match signature.extra_check {
        Some((extra, offset)) => offset + extra@.len(),
        None => 0,
    };
    let validator_end = match signature.validator {
        Some((validator, needed)) => signature.header_offset + needed,
        None => 0,
    };
    let field_end = match signature.size_from_header {
        Some((offset, len)) => signature.header_offset + offset + len,
        None => 0,
    };
    larger(larger(header_end, extra_end), larger(validator_end, field_end))
}

/// Longest reach among the signatures, at least 0.
pub open spec fn longest_reach(list: Seq<FileSignature>) -> int
    decreases list.len(),
{
    if list.len() == 0 {
        0
    } else {
        larger(longest_reach(list.drop_last()), reach(list.last()))
    }
}

/// Longest reach among the signatures, or 16 where there are none.
pub fn max_signature_reach(list: &[FileSignature]) -> (reach_max: usize)
    requires
        crate::signatures::table::all_well_formed(list@),
    ensures
        list@.len() == 0 ==> reach_max == 16,
        list@.len() > 0 ==> reach_max == longest_reach(list@),
{
    if list.len() == 0 {
        return 16;
    }
    let mut longest: usize = 0;
    let mut i: usize = 0;
    while i < list.len()
        invariant
            i <= list@.len(),
            crate::signatures::table::all_well_formed(list@),
            longest == longest_reach(list@.take(i as int)),
        decreases list@.len() - i,
    {
        let one = &list[i];
        proof {
            assert(list@.take(i as int + 1).drop_last() =~= list@.take(i as int));
            assert(list@.take(i as int + 1).last() == list@[i as int]);
        }
        let header_end: usize = one.header_offset + one.header.len();
        let extra_end: usize = match one.extra_check {
            Some((extra, offset)) => offset + extra.len(),
            None => 0,
        };
        let validator_end: usize = match one.validator {
            Some((_, needed)) => one.header_offset + needed,
            None => 0,
        };
        let field_end: usize = match one.size_from_header {
            Some((offset, len)) => one.header_offset + offset + len,
            None => 0,
        };
        let a: usize = if header_end >= extra_end { header_end } else { extra_end };
        let b: usize = if validator_end >= field_end { validator_end } else { field_end };
        let own: usize = if a >= b { a } else { b };
        longest = if longest >= own { longest } else { own };
        i = i + 1;
    }
    assert(list@.take(list@.len() as int) =~= list@);
    longest
}

/// The longest reach covers every byte that a signature of the list looks at from the start of a
/// file on.
pub proof fn law_reach_covers_every_signature(list: Seq<FileSignature>, i: int)
    requires
        0 <= i < list.len(),
    ensures
        reach(list[i]) <= longest_reach(list),
        list[i].header_offset + list[i].header@.len() <= longest_reach(list),
        list[i].extra_check matches Some((extra, offset)) ==> offset + extra@.len()
            <= longest_reach(list),
        list[i].validator matches Some((validator, needed)) ==> list[i].header_offset + needed
            <= longest_reach(list),
        list[i].size_from_header matches Some((offset, len)) ==> list[i].header_offset + offset
            + len <= longest_reach(list),
    decreases list.len(),
{
    if i < list.len() - 1 {
        law_reach_covers_every_signature(list.drop_last(), i);
        assert(list.drop_last()[i] == list[i]);
    }
}

/// `file` opens inside the claim of `segment`.
pub open spec fn claims(segment: Segment, file: FoundFile) -> bool {
    segment.claim_start <= file.offset < segment.claim_end
}

/// The files that the segment claims, in order.
pub open spec fn claimed(segment: Segment, files: Seq<FoundFile>) -> Seq<FoundFile> {
    files.filter(|file: FoundFile| claims(segment, file))
}

/// How many of the files from `from` on the segment claims.
pub fn count_claimed(files: &[FoundFile], from: usize, segment: &Segment) -> (count: u64)
    requires
        from <= files@.len(),
    ensures
        count == claimed(*segment, files@.skip(from as int)).len(),
{
    let ghost keep = |file: FoundFile| claims(*segment, file);
    let ghost tail = files@.skip(from as int);
    let mut count: u64 = 0;
    let mut i: usize = from;
    while i < files.len()
        invariant
            from <= i <= files.len(),
            count <= i - from,
            tail == files@.skip(from as int),
            keep == (|file: FoundFile| claims(*segment, file)),
            count == tail.take(i - from).filter(keep).len(),
        decreases files@.len() - i,
    {
        proof {
            let next = tail.take(i - from + 1);
            assert(next.drop_last() =~= tail.take(i - from));
            assert(next.last() == files@[i as int]);
            reveal(Seq::filter);
        }
        let file = &files[i];
        if segment.claim_start <= file.offset && file.offset < segment.claim_end {
            count = count + 1;
        }
        i = i + 1;
    }
    assert(tail.take(tail.len() as int) =~= tail);
    count
}

/// The segments are of one size, but for the alignment: each inner border lies less than a sector
/// before its share of the source.
pub proof fn law_segments_are_of_one_size(file_size: int, count: int, i: int)
    requires
        0 <= file_size,
        0 < i < count,
    ensures
        ({
            let share = file_size / count;
            claim_border(file_size, count, i) <= i * share < claim_border(file_size, count, i) + 512
        }),
{
}

/// A segment reads as far as the overlap beyond its claim on both sides, and less only where the
/// source ends.
pub proof fn law_segments_read_beyond_their_claims(file_size: int, count: int, overlap: int, i: int)
    requires
        0 <= file_size <= u64::MAX,
        1 <= count,
        0 <= overlap,
        0 <= i < count,
    ensures
        ({
            let segment = segment_spec(file_size, count, overlap, i);
            &&& segment.claim_start - segment.start == overlap || segment.start == 0
                && segment.claim_start < overlap
            &&& segment.end - segment.claim_end == overlap || segment.end == file_size
                && file_size - segment.claim_end < overlap
        }),
{
    law_borders_advance(file_size, count, i);
}

/// A device is scanned by one thread. A file is scanned by as many as can be had without using more
/// than eight, more than there are cores, or one for less than 16 MB; and always by one at least.
pub proof fn law_threads_are_as_many_as_are_worth_it(
    is_device: bool,
    file_size: int,
    cpu_cores: int,
    more: int,
)
    requires
        0 <= file_size,
        0 <= cpu_cores,
    ensures
        ({
            let count = thread_count(is_device, file_size, cpu_cores);
            &&& 1 <= count <= 8
            &&& is_device ==> count == 1
            &&& count > 1 ==> count <= cpu_cores && count * 16_777_216 <= file_size
            &&& !is_device && count < more <= 8 ==> more > cpu_cores || more * 16_777_216
                > file_size
        }),
{
}

/// A scan is expected to read 40 MB each second from a device and 150 MB from a file, for each thread
/// up to four. Up to five seconds are not worth telling, up to thirty are told in seconds, and more in
/// minutes and seconds.
pub proof fn law_scans_take_as_long_as_reading(
    is_device: bool,
    num_threads: int,
    secs: int,
    rest: int,
)
    requires
        1 <= num_threads,
        0 <= secs <= u64::MAX,
        ({
            let busy = if num_threads > 4 { 4 } else { num_threads };
            let each: int = if is_device { 41_943_040 } else { 157_286_400 };
            0 <= rest < busy * each
        }),
    ensures
        ({
            let busy = if num_threads > 4 { 4 } else { num_threads };
            let each: int = if is_device { 41_943_040 } else { 157_286_400 };
            match estimate_of(is_device, secs * (busy * each) + rest, num_threads) {
                Estimate::Brief => secs <= 5,
                Estimate::Seconds(shown) => 5 < secs <= 30 && shown == secs,
                Estimate::Long { mins, secs: left } => 30 < secs && left < 60 && 60 * mins + left
                    == secs,
            }
        }),
{
    let busy = if num_threads > 4 { 4 } else { num_threads };
    let each: int = if is_device { 41_943_040 } else { 157_286_400 };
    let second = busy * each;
    assert(expected_speed(is_device, num_threads) * 1_048_576 == second);
    vstd::arithmetic::div_mod::lemma_fundamental_div_mod_converse(
        secs * second + rest,
        second,
        secs,
        rest,
    );
}

} // verus!
