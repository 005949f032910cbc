//! What a scan recognises as a whole, however the source is divided and read in blocks.

use vstd::prelude::*;

use crate::scanner::buffer::{self, Finds};
use crate::scanner::run;
use crate::scanner::segment_scan::{self, ScanModel, BUFFER_SIZE};
use crate::scanner::segments::{self, Segment};
use crate::signatures::FileSignature;

verus! {

/// The scan of a source that can be read, from where it stands up to `end`, block by block.
pub open spec fn scanned(
    source: Seq<u8>,
    list: Seq<FileSignature>,
    reach: int,
    end: int,
    scan: ScanModel,
) -> ScanModel
    decreases end - scan.position,
    when 0 <= scan.position && end <= source.len()
{
    if scan.position >= end {
        scan
    } else {
        let to = if scan.position + BUFFER_SIZE <= end { scan.position + BUFFER_SIZE } else { end };
        let block = source.subrange(scan.position, to);
        scanned(source, list, reach, end, scan.after(block, list, reach, source.len() as int))
    }
}

/// What the scan of a segment has found in the end.
pub open spec fn finds_of(
    source: Seq<u8>,
    list: Seq<FileSignature>,
    reach: int,
    segment: Segment,
) -> Finds {
    scanned(
        source,
        list,
        reach,
        segment.end as int,
        ScanModel {
            position: segment.start as int,
            overlap: Seq::empty(),
            finds: Finds { found: Seq::empty(), seen: Set::empty() },
        },
    ).finds
}

/// Whatever opens in a source is recognised, whatever the number of threads: one segment claims its
/// place, and the scan of that segment registers its offset and extension. It holds of formats
/// whose validator judges by the bytes that it needs; the others follow the file as far as the
/// block goes, and that differs from one division of the source to another.
pub proof fn law_threads_recognise_what_opens(
    source: Seq<u8>,
    list: Seq<FileSignature>,
    num_threads: int,
    reach: int,
    t: int,
    offset: int,
)
    requires
        source.len() <= u64::MAX,
        0 <= t < list.len(),
        list[t].header@.len() > 0,
        segments::reach(list[t]) <= reach <= BUFFER_SIZE,
        segment_scan::judges_needed_bytes(list[t]),
        0 <= offset,
        offset + segments::reach(list[t]) <= source.len(),
        buffer::opens_at(list[t], source, offset),
    ensures
        exists|i: int| #[trigger]
            recognised_by(
                source,
                list,
                reach,
                run::planned(source.len() as int, num_threads, reach),
                i,
                list[t],
                offset,
            ),
{
    let size = source.len() as int;
    let plan = run::planned(size, num_threads, reach);
    if num_threads <= 1 {
        lemma_segment_recognises(source, list, reach, plan[0], t, offset);
        assert(recognised_by(source, list, reach, plan, 0, list[t], offset));
    } else {
        segments::law_claims_tile_the_source(size, num_threads, offset);
        let i = choose|i: int|
            0 <= i < num_threads && #[trigger] segments::claim_border(size, num_threads, i)
                <= offset < segments::claim_border(size, num_threads, i + 1);
        segments::law_borders_advance(size, num_threads, i);
        segments::law_segments_read_their_claims(size, num_threads, reach, i);
        let segment = segments::segment_spec(size, num_threads, reach, i);
        assert(plan[i] == segment);
        lemma_segment_recognises(source, list, reach, segment, t, offset);
        assert(recognised_by(source, list, reach, plan, i, list[t], offset));
    }
}

/// Segment `i` of the plan claims the place and registers the format there.
pub open spec fn recognised_by(
    source: Seq<u8>,
    list: Seq<FileSignature>,
    reach: int,
    plan: Seq<Segment>,
    i: int,
    signature: FileSignature,
    offset: int,
) -> bool {
    &&& 0 <= i < plan.len()
    &&& plan[i].claim_start <= offset < plan[i].claim_end
    &&& finds_of(source, list, reach, plan[i]).seen.contains(
        (offset as u64, signature.extension@),
    )
}

proof fn lemma_segment_recognises(
    source: Seq<u8>,
    list: Seq<FileSignature>,
    reach: int,
    segment: Segment,
    t: int,
    offset: int,
)
    requires
        source.len() <= u64::MAX,
        0 <= t < list.len(),
        list[t].header@.len() > 0,
        segments::reach(list[t]) <= reach <= BUFFER_SIZE,
        segment_scan::judges_needed_bytes(list[t]),
        segment.start <= offset,
        offset + segments::reach(list[t]) <= segment.end <= source.len(),
        buffer::opens_at(list[t], source, offset),
    ensures
        finds_of(source, list, reach, segment).seen.contains((offset as u64, list[t].extension@)),
{
    let start = ScanModel {
        position: segment.start as int,
        overlap: Seq::empty(),
        finds: Finds { found: Seq::empty(), seen: Set::empty() },
    };
    assert(start.overlap =~= source.subrange(start.position, start.position));
    lemma_scan_recognises(source, list, reach, segment.end as int, start, t, offset);
}

/// What opens behind the bytes kept, and has not shown all its marks yet, is registered by what is
/// still to be scanned.
proof fn lemma_scan_recognises(
    source: Seq<u8>,
    list: Seq<FileSignature>,
    reach: int,
    end: int,
    scan: ScanModel,
    t: int,
    offset: int,
)
    requires
        source.len() <= u64::MAX,
        0 <= t < list.len(),
        list[t].header@.len() > 0,
        segments::reach(list[t]) <= reach <= BUFFER_SIZE,
        segment_scan::judges_needed_bytes(list[t]),
        0 <= scan.position - scan.overlap.len(),
        scan.position <= end <= source.len(),
        scan.overlap == source.subrange(scan.position - scan.overlap.len(), scan.position),
        scan.position - scan.overlap.len() <= offset,
        scan.position < offset + segments::reach(list[t]) <= end,
        buffer::opens_at(list[t], source, offset),
    ensures
        scanned(source, list, reach, end, scan).finds.seen.contains(
            (offset as u64, list[t].extension@),
        ),
    decreases end - scan.position,
{
    let to = if scan.position + BUFFER_SIZE <= end { scan.position + BUFFER_SIZE } else { end };
    let data = source.subrange(scan.position, to);
    let size = source.len() as int;
    let next = scan.after(data, list, reach, size);
    let base = scan.position - scan.overlap.len();
    let both = scan.overlap + data;
    assert(both =~= source.subrange(base, to));
    if offset + segments::reach(list[t]) <= to {
        segment_scan::lemma_same_bytes_open_alike(source, offset, both, offset - base, list[t]);
        buffer::law_every_opening_is_registered(
            scan.finds,
            list,
            both,
            both.len() as int,
            base,
            size,
            offset - base,
            t,
        );
        lemma_scan_forgets_nothing(
            source,
            list,
            reach,
            end,
            next,
            (offset as u64, list[t].extension@),
        );
    } else {
        assert(next.overlap =~= source.subrange(to - next.overlap.len(), to));
        lemma_scan_recognises(source, list, reach, end, next, t, offset);
    }
}

proof fn lemma_scan_forgets_nothing(
    source: Seq<u8>,
    list: Seq<FileSignature>,
    reach: int,
    end: int,
    scan: ScanModel,
    key: (u64, Seq<char>),
)
    requires
        0 <= scan.position,
        end <= source.len(),
        scan.finds.seen.contains(key),
    ensures
        scanned(source, list, reach, end, scan).finds.seen.contains(key),
    decreases end - scan.position,
{
    if scan.position < end {
        let to = if scan.position + BUFFER_SIZE <= end { scan.position + BUFFER_SIZE } else { end };
        let data = source.subrange(scan.position, to);
        let next = scan.after(data, list, reach, source.len() as int);
        let both = scan.overlap + data;
        buffer::law_finds_only_grow(
            scan.finds,
            list,
            both,
            both.len() as int,
            scan.position - scan.overlap.len(),
            source.len() as int,
        );
        lemma_scan_forgets_nothing(source, list, reach, end, next, key);
    }
}

/// One of the signatures opens at this place and has this extension.
pub open spec fn something_opens(
    list: Seq<FileSignature>,
    data: Seq<u8>,
    at: int,
    extension: Seq<char>,
) -> bool {
    exists|t: int|
        0 <= t < list.len() && #[trigger] buffer::opens_at(list[t], data, at)
            && list[t].extension@ == extension
}

/// Nothing else is recognised: what the scan of a segment registers opens in the source, whatever
/// the segment is. It holds of every extension whose formats judge by the bytes that they need.
pub proof fn law_only_what_opens_is_recognised(
    source: Seq<u8>,
    list: Seq<FileSignature>,
    reach: int,
    segment: Segment,
    key: (u64, Seq<char>),
)
    requires
        source.len() <= u64::MAX,
        segment.end <= source.len(),
        0 <= reach,
        forall|t: int|
            0 <= t < list.len() && (#[trigger] list[t]).extension@ == key.1
                ==> segment_scan::judges_needed_bytes(list[t]),
        finds_of(source, list, reach, segment).seen.contains(key),
    ensures
        something_opens(list, source, key.0 as int, key.1),
{
    let start = ScanModel {
        position: segment.start as int,
        overlap: Seq::empty(),
        finds: Finds { found: Seq::empty(), seen: Set::empty() },
    };
    if segment.start <= segment.end {
        assert(start.overlap =~= source.subrange(start.position, start.position));
    }
    if !something_opens(list, source, key.0 as int, key.1) {
        lemma_scan_invents_nothing(source, list, reach, segment.end as int, start, key);
    }
}

proof fn lemma_scan_invents_nothing(
    source: Seq<u8>,
    list: Seq<FileSignature>,
    reach: int,
    end: int,
    scan: ScanModel,
    key: (u64, Seq<char>),
)
    requires
        source.len() <= u64::MAX,
        end <= source.len(),
        0 <= reach,
        0 <= scan.position - scan.overlap.len(),
        scan.position <= end ==> scan.overlap == source.subrange(
            scan.position - scan.overlap.len(),
            scan.position,
        ),
        forall|t: int|
            0 <= t < list.len() && (#[trigger] list[t]).extension@ == key.1
                ==> segment_scan::judges_needed_bytes(list[t]),
        scanned(source, list, reach, end, scan).finds.seen.contains(key),
        !something_opens(list, source, key.0 as int, key.1),
    ensures
        scan.finds.seen.contains(key),
    decreases end - scan.position,
{
    if scan.position < end {
        let to = if scan.position + BUFFER_SIZE <= end { scan.position + BUFFER_SIZE } else { end };
        let data = source.subrange(scan.position, to);
        let size = source.len() as int;
        let next = scan.after(data, list, reach, size);
        let base = scan.position - scan.overlap.len();
        let both = scan.overlap + data;
        let upto = both.len() as int;
        assert(both =~= source.subrange(base, to));
        assert(next.overlap =~= source.subrange(to - next.overlap.len(), to));
        lemma_scan_invents_nothing(source, list, reach, end, next, key);
        if !scan.finds.seen.contains(key) {
            lemma_positions_register_openings(scan.finds, list, both, upto, base, size, key);
            let (at, t) = choose|at: int, t: int|
                0 <= at < upto && 0 <= t < list.len() && #[trigger] buffer::opens_at(
                    list[t],
                    both,
                    at,
                ) && ((base + at) as u64, list[t].extension@) == key;
            lemma_opens_in_the_whole(source, base, to, list[t], at);
            assert(buffer::opens_at(list[t], source, key.0 as int));
        }
    }
}

/// What opens in a part of the source opens in the source.
pub proof fn lemma_opens_in_the_whole(
    source: Seq<u8>,
    from: int,
    to: int,
    signature: FileSignature,
    at: int,
)
    requires
        0 <= from <= to <= source.len(),
        0 <= at,
        segment_scan::judges_needed_bytes(signature),
        buffer::opens_at(signature, source.subrange(from, to), at),
    ensures
        buffer::opens_at(signature, source, from + at),
{
    let part = source.subrange(from, to);
    let header_at = at + signature.header_offset;
    assert forall|k: int| #![trigger signature.header@[k]]
        0 <= k < signature.header@.len() implies source[from + header_at + k]
        == signature.header@[k] by {
        assert(part[header_at + k] == signature.header@[k]);
    }
    if let Some((extra, offset)) = signature.extra_check {
        assert forall|k: int| #![trigger extra@[k]] 0 <= k < extra@.len() implies source[from + at
            + offset + k] == extra@[k] by {
            assert(part[at + offset + k] == extra@[k]);
        }
    }
    if let Some((validator, needed)) = signature.validator {
        let (a, b) = (part.skip(header_at), source.skip(from + header_at));
        assert(a.take(needed as int) =~= b.take(needed as int));
        assert(validator.holds(a) == validator.holds(b));
    }
}

/// A key that is registered newly is one of something that opens in the data.
pub proof fn lemma_positions_register_openings(
    finds: Finds,
    list: Seq<FileSignature>,
    data: Seq<u8>,
    upto: int,
    base: int,
    source_size: int,
    key: (u64, Seq<char>),
)
    requires
        upto <= data.len(),
        !finds.seen.contains(key),
        buffer::after_positions(finds, list, data, upto, base, source_size).seen.contains(key),
    ensures
        exists|at: int, t: int|
            0 <= at < upto && 0 <= t < list.len() && #[trigger] buffer::opens_at(list[t], data, at)
                && ((base + at) as u64, list[t].extension@) == key,
    decreases upto,
{
    if upto > 0 {
        let before = buffer::after_positions(finds, list, data, upto - 1, base, source_size);
        if before.seen.contains(key) {
            lemma_positions_register_openings(
                finds,
                list,
                data,
                upto - 1,
                base,
                source_size,
                key,
            );
        } else {
            lemma_signatures_register_openings(
                before,
                list,
                list.len() as int,
                data,
                upto - 1,
                base,
                source_size,
                key,
            );
        }
    }
}

proof fn lemma_signatures_register_openings(
    finds: Finds,
    list: Seq<FileSignature>,
    count: int,
    data: Seq<u8>,
    at: int,
    base: int,
    source_size: int,
    key: (u64, Seq<char>),
)
    requires
        count <= list.len(),
        !finds.seen.contains(key),
        buffer::after_signatures(finds, list, count, data, at, base, source_size).seen.contains(
            key,
        ),
    ensures
        exists|t: int|
            0 <= t < list.len() && #[trigger] buffer::opens_at(list[t], data, at) && (
            (base + at) as u64,
            list[t].extension@,
        ) == key,
    decreases count,
{
    if count > 0 {
        let before = buffer::after_signatures(
            finds,
            list,
            count - 1,
            data,
            at,
            base,
            source_size,
        );
        if before.seen.contains(key) {
            lemma_signatures_register_openings(
                finds,
                list,
                count - 1,
                data,
                at,
                base,
                source_size,
                key,
            );
        } else {
            assert(buffer::opens_at(list[count - 1], data, at));
        }
    }
}

} // verus!
