//! What a scan finds does not depend on how the source is divided among threads.
//!
//! A block may end in the middle of a file, so what the blocks show of it differs from one division
//! to another. Once the ends behind the blocks were searched, the finds are the same all the same,
//! for every format that is recognised by fixed bytes and ends by a size field, a footer or a chain
//! of boxes.

use vstd::prelude::*;

use crate::bytes;
use crate::scanner::assemble;
use crate::scanner::buffer::{self, Finds, MIN_FILE_SIZE};
use crate::scanner::coverage;
use crate::scanner::ends::{self, EndResult};
use crate::scanner::footer_search;
use crate::scanner::found::FoundFile;
use crate::scanner::nesting;
use crate::scanner::refine;
use crate::scanner::run;
use crate::scanner::segment_scan::{self, ScanModel, SegmentResult, BUFFER_SIZE};
use crate::scanner::segments::{self, Segment};
use crate::scanner::walk_boxes;
use crate::signatures::{self, isobmff, table, FileSignature, Validator};

verus! {

/// End of the bytes by which a file of this format is recognised, counted from its start.
pub open spec fn marks_end(signature: FileSignature) -> int {
    let header_end = signature.header_offset + signature.header@.len();
    let extra_end = match signature.extra_check {
        Some((extra, offset)) => offset + extra@.len(),
        None => 0,
    };
    let validator_end = match signature.validator {
        Some((validator, needed)) => signature.header_offset + needed,
        None => 0,
    };
    segments::larger(segments::larger(header_end, extra_end), validator_end)
}

/// A format that is recognised by fixed bytes and told by them how long it is, or ends with a
/// footer, or is made of boxes, or has no end of its own.
pub open spec fn is_plain(signature: FileSignature) -> bool {
    &&& signature.header@.len() > 0
    &&& segment_scan::judges_needed_bytes(signature)
    &&& !buffer::is_zip_ooxml(signature)
    &&& signatures::audio_format(signature.name@) is None
    &&& signatures::is_box_format(signature.name@) ==> signature.size_from_header is None
        && signature.footer is None
    &&& signature.size_from_header matches Some((offset, len)) ==> {
        &&& signature.header_offset + offset + len <= marks_end(signature)
        &&& signature.footer is None
    }
    &&& signature.footer matches Some(footer) ==> 0 < footer@.len() <= signature.header@.len()
        <= refine::REFINE_CHUNK
}

/// The known formats are plain, but for those that are recognised by following them through the
/// file: audio made of frames, and office packages.
pub proof fn law_known_formats_are_plain(signature: FileSignature, i: int)
    requires
        0 <= i < table::known_signatures().len(),
        signature.model() == table::known_signatures()[i],
        signatures::audio_format(signature.name@) is None,
        !buffer::is_zip_ooxml(signature),
    ensures
        is_plain(signature),
{
    table::law_headers_cover_footers(i);
    lemma_known_validators(i);
    assert(signature.model().size_from_header == table::known_signatures()[i].size_from_header);
    segment_scan::law_header_validators_judge_needed_bytes(signature);
}

proof fn lemma_known_validators(i: int)
    requires
        0 <= i < table::known_signatures().len(),
        signatures::audio_format(table::known_signatures()[i].name) is None,
        table::known_signatures()[i].header != table::zip_entry(),
    ensures
        ({
            let known = table::known_signatures()[i];
            &&& known.header.len() <= refine::REFINE_CHUNK
            &&& known.validator matches Some((validator, needed)) ==> {
                ||| validator == Validator::HeicFtyp && needed >= 8
                ||| validator == Validator::Mp4GenericFtyp && needed >= 8
                ||| validator == Validator::Bmp && needed >= 34
                ||| validator == Validator::TiffNotCr2 && needed >= 12
            }
            &&& signatures::is_box_format(known.name) ==> known.footer is None
                && known.size_from_header is None
            &&& known.size_from_header matches Some((offset, len)) ==> known.validator matches Some((
                validator,
                needed,
            )) && offset + len <= needed && known.footer is None
        }),
{
    reveal_strlit("MP4/M4V");
    reveal_strlit("HEIC/HEIF");
    reveal_strlit("3GP");
    reveal_strlit("M4A");
    reveal_strlit("JPEG");
    reveal_strlit("PNG");
    reveal_strlit("GIF");
    reveal_strlit("BMP");
    reveal_strlit("PDF");
    assert("MP4/M4V"@.len() == 7 && "HEIC/HEIF"@.len() == 9 && "JPEG"@.len() == 4);
    assert("3GP"@[0] == '3' && "M4A"@[0] == 'M');
    assert("PNG"@[0] == 'P' && "GIF"@[0] == 'G' && "BMP"@[0] == 'B' && "PDF"@[0] == 'P');
    assert("3GP"@.len() == 3 && "M4A"@.len() == 3);
    let known = table::known_signatures()[i];
    assert(known.footer is Some ==> known.name == "JPEG"@ || known.name == "PNG"@ || known.name
        == "GIF"@ || known.name == "PDF"@);
    assert(known.size_from_header is Some ==> known.name == "BMP"@);
}

/// A find once its footer was searched in the source, where the scan did not show it.
pub open spec fn after_search(source: Seq<u8>, file: FoundFile) -> FoundFile {
    if !file.footer_found && file.signature.footer is Some {
        match footer_search::searched(source, refine::footer_search_of(file)) {
            Some(size) => FoundFile { size: size as u64, footer_found: true, ..file },
            None => file,
        }
    } else {
        file
    }
}

/// A find once its end was settled: its footer was searched, or its boxes were followed.
pub open spec fn settled(source: Seq<u8>, file: FoundFile) -> FoundFile {
    let file = after_search(source, file);
    if !file.footer_found && signatures::is_box_format(file.signature.name@) {
        ends::concluded(
            file,
            walk_boxes::walked(source, refine::box_walk_of(file, source.len() as u64)),
        )
    } else {
        file
    }
}

/// A find once its end was settled, its number aside.
pub open spec fn outcome(source: Seq<u8>, file: FoundFile) -> FoundFile {
    FoundFile { index: 0, ..settled(source, file) }
}

/// The find of a format at `offset`, of this size.
pub open spec fn find_of(
    signature: FileSignature,
    offset: int,
    size: (int, bool),
    index: usize,
) -> FoundFile {
    FoundFile {
        signature: signature,
        offset: offset as u64,
        size: size.0 as u64,
        index: index,
        footer_found: size.1,
        end_unknown: false,
    }
}

/// The find that a file of this format at `offset` makes, by the source alone.
pub open spec fn told(signature: FileSignature, source: Seq<u8>, offset: int) -> FoundFile {
    let size = if signature.footer is Some || signatures::is_box_format(signature.name@) {
        (buffer::room_at(signature, offset, source.len() as int), false)
    } else {
        buffer::size_at(signature, source, offset, 0, source.len() as int)
    };
    outcome(source, find_of(signature, offset, size, 0))
}

/// The file at `offset` is larger than a chance match, and no two marks of its format overlap as
/// far as it can go.
pub open spec fn is_clear(signature: FileSignature, source: Seq<u8>, offset: int) -> bool {
    &&& told(signature, source, offset).size > MIN_FILE_SIZE
    &&& buffer::room_at(signature, offset, source.len() as int) > MIN_FILE_SIZE
    &&& signature.footer matches Some(footer) ==> nesting::marks_apart(
        source.take(offset + buffer::room_at(signature, offset, source.len() as int)),
        signature.header@,
        footer@,
        offset + signature.header_offset,
    )
}

/// A format opens in a part of the source exactly where it opens in the source and its marks stand
/// in the part.
pub proof fn lemma_opens_in_a_part(
    source: Seq<u8>,
    from: int,
    to: int,
    signature: FileSignature,
    offset: int,
)
    requires
        0 <= from <= offset <= to <= source.len(),
        segment_scan::judges_needed_bytes(signature),
        signature.size_from_header matches Some((place, len)) ==> signature.header_offset + place
            + len <= marks_end(signature),
    ensures
        segments::reach(signature) == marks_end(signature),
        buffer::opens_at(signature, source.subrange(from, to), offset - from) == (buffer::opens_at(
            signature,
            source,
            offset,
        ) && offset + marks_end(signature) <= to),
{
    let part = source.subrange(from, to);
    if buffer::opens_at(signature, part, offset - from) {
        coverage::lemma_opens_in_the_whole(source, from, to, signature, offset - from);
    }
    if offset + marks_end(signature) <= to {
        segment_scan::lemma_same_bytes_open_alike(source, offset, part, offset - from, signature);
    }
}

/// Whatever part of the source shows a file, the find comes to the same, and it is no chance match.
pub proof fn law_every_part_tells_the_same(
    source: Seq<u8>,
    from: int,
    to: int,
    signature: FileSignature,
    offset: int,
    index: usize,
)
    requires
        source.len() + signature.max_size <= u64::MAX,
        is_plain(signature),
        0 <= from <= offset < to <= source.len(),
        buffer::opens_at(signature, source.subrange(from, to), offset - from),
        is_clear(signature, source, offset),
    ensures
        ({
            let size = buffer::size_at(
                signature,
                source.subrange(from, to),
                offset - from,
                from,
                source.len() as int,
            );
            &&& MIN_FILE_SIZE < size.0 <= u64::MAX
            &&& outcome(source, find_of(signature, offset, size, index)) == told(
                signature,
                source,
                offset,
            )
        }),
{
    let part = source.subrange(from, to);
    if let Some((place, len)) = signature.size_from_header {
        let field = signature.header_offset + place;
        lemma_opens_in_a_part(source, from, to, signature, offset);
        assert(part.subrange(offset - from + field, offset - from + field + len)
            =~= source.subrange(offset + field, offset + field + len));
    } else if signature.footer is Some {
        lemma_part_tells_footer(source, from, to, signature, offset);
    } else if signatures::is_box_format(signature.name@) {
        lemma_part_tells_boxes(source, from, to, signature, offset);
    }
}

proof fn lemma_part_tells_boxes(
    source: Seq<u8>,
    from: int,
    to: int,
    signature: FileSignature,
    offset: int,
)
    requires
        source.len() + signature.max_size <= u64::MAX,
        is_plain(signature),
        signatures::is_box_format(signature.name@),
        0 <= from <= offset < to <= source.len(),
    ensures
        ({
            let room = buffer::room_at(signature, offset, source.len() as int);
            let (size, closed) = buffer::size_at(
                signature,
                source.subrange(from, to),
                offset - from,
                from,
                source.len() as int,
            );
            let walk = refine::box_walk_of(
                find_of(signature, offset, (room, false), 0),
                source.len() as u64,
            );
            &&& closed ==> walk_boxes::walked(source, walk) == EndResult::Size(size as u64)
            &&& closed ==> 0 < size <= room
            &&& !closed ==> size == room
        }),
{
    let part = source.subrange(from, to);
    let at = offset - from;
    let room = buffer::room_at(signature, offset, source.len() as int);
    let limit = if at + room <= part.len() { at + room } else { part.len() as int };
    let data = part.subrange(at, limit);
    let walk = refine::box_walk_of(
        find_of(signature, offset, (room, false), 0),
        source.len() as u64,
    );
    assert(data =~= source.subrange(offset, from + limit));
    if let Some(size) = isobmff::file_end(data, from + limit == source.len()) {
        walk_boxes::law_buffer_and_source_agree(source, walk, from + limit, size);
    }
}

proof fn lemma_part_tells_footer(
    source: Seq<u8>,
    from: int,
    to: int,
    signature: FileSignature,
    offset: int,
)
    requires
        source.len() + signature.max_size <= u64::MAX,
        is_plain(signature),
        signature.footer is Some,
        0 <= from <= offset < to <= source.len(),
        buffer::opens_at(signature, source.subrange(from, to), offset - from),
        is_clear(signature, source, offset),
    ensures
        ({
            let room = buffer::room_at(signature, offset, source.len() as int);
            let (size, closed) = buffer::size_at(
                signature,
                source.subrange(from, to),
                offset - from,
                from,
                source.len() as int,
            );
            &&& told(signature, source, offset).size <= room
            &&& closed ==> size == told(signature, source, offset).size && told(
                signature,
                source,
                offset,
            ).footer_found
            &&& !closed ==> size == room
        }),
{
    let part = source.subrange(from, to);
    let size = source.len() as int;
    let room = buffer::room_at(signature, offset, size);
    let (header, footer) = (signature.header@, signature.footer->0@);
    let ahead = offset + signature.header_offset;
    let start = ahead + header.len();
    let end = offset + room;
    let seen = source.take(end);
    let search = refine::footer_search_of(find_of(signature, offset, (room, false), 0));
    assert(footer_search::reachable_end(source, search) == end);
    assert(nesting::marks_apart(seen, header, footer, start));
    footer_search::law_search_finds_the_closing_footer(source, search);
    nesting::law_closing_footer_is_a_footer(seen, header, footer, 1, start, start, end);
    let at = offset - from;
    let limit = if at + room <= part.len() { at + room } else { part.len() as int };
    if let Some(close) = nesting::closing_footer(
        part,
        header,
        footer,
        at + signature.header_offset + header.len(),
        limit,
    ) {
        if close - at + footer.len() <= room {
            lemma_close_agrees(source, from, to, header, footer, ahead, end, limit, close);
        }
    }
}

/// A closing footer that a part of the source shows is the one that the source as a whole has.
proof fn lemma_close_agrees(
    source: Seq<u8>,
    from: int,
    to: int,
    header: Seq<u8>,
    footer: Seq<u8>,
    ahead: int,
    end: int,
    limit: int,
    close: int,
)
    requires
        0 <= from <= ahead,
        from <= to <= source.len(),
        0 <= end <= source.len(),
        0 < footer.len() <= header.len(),
        nesting::marks_apart(source.take(end), header, footer, ahead),
        bytes::pattern_at(source.subrange(from, to), ahead - from, header),
        limit <= to - from,
        nesting::closing_footer(
            source.subrange(from, to),
            header,
            footer,
            ahead - from + header.len(),
            limit,
        ) == Some(close),
        from + close + footer.len() <= end,
    ensures
        nesting::nesting(
            source.take(end),
            header,
            footer,
            1,
            ahead + header.len(),
            ahead + header.len(),
            end,
        ).1 == Some(from + close),
{
    let part = source.subrange(from, to);
    let before = source.take(to);
    let seen = source.take(end);
    let start = ahead + header.len();
    let first = ahead + 1;
    let here = from + close;
    let cut = here + footer.len();
    assert(part =~= before.skip(from));
    nesting::lemma_nesting_moves(
        before,
        from,
        header,
        footer,
        1,
        start - from,
        first - from,
        limit,
    );
    nesting::law_closing_footer_is_a_footer(
        before,
        header,
        footer,
        1,
        start,
        first,
        limit + from,
    );
    nesting::lemma_close_stands_in_head(
        before,
        header,
        footer,
        1,
        start,
        first,
        limit + from,
        here,
    );
    assert(before.take(cut) =~= seen.take(cut));
    nesting::lemma_marks_apart_in_head(seen, header, footer, ahead, cut);
    let head = seen.take(cut);
    nesting::lemma_nesting_is_flat(head, header, footer, 1, start, ahead, first, cut);
    assert(bytes::pattern_at(head, ahead, header)) by {
        assert forall|k: int| 0 <= k < header.len() implies head[ahead + k] == #[trigger] header[k] by {
            assert(part[ahead - from + k] == header[k]);
        }
    }
    assert forall|p: int| first <= p < start implies !#[trigger] nesting::mark_past(
        head,
        header,
        footer,
        p,
        start,
    ) by {}
    nesting::lemma_flat_passes(head, header, footer, 1, start, first, start, cut);
    nesting::lemma_flat_resumes(seen, header, footer, 1, start, ahead, start, cut, start);
    nesting::lemma_nesting_is_flat(seen, header, footer, 1, start, ahead, start, end);
}

/// The source tells the finds of this extension: their formats are plain, and their places clear.
pub open spec fn is_tellable(
    source: Seq<u8>,
    list: Seq<FileSignature>,
    extension: Seq<char>,
) -> bool {
    &&& forall|t: int|
        0 <= t < list.len() && (#[trigger] list[t]).extension@ == extension ==> is_plain(list[t])
            && source.len() + list[t].max_size <= u64::MAX
    &&& forall|t: int, offset: int|
        0 <= t < list.len() && list[t].extension@ == extension && 0 <= offset < source.len()
            && #[trigger] buffer::opens_at(list[t], source, offset) ==> is_clear(
            list[t],
            source,
            offset,
        )
}

/// A format of the list opens where the file is, and the file is what the source tells of it.
pub open spec fn is_right(source: Seq<u8>, list: Seq<FileSignature>, file: FoundFile) -> bool {
    &&& list.contains(file.signature)
    &&& file.offset < source.len()
    &&& buffer::opens_at(file.signature, source, file.offset as int)
    &&& outcome(source, file) == told(file.signature, source, file.offset as int)
}

/// All finds are of formats of the list, those of this extension are right, and what is registered
/// under it was found.
pub open spec fn all_right(
    source: Seq<u8>,
    list: Seq<FileSignature>,
    extension: Seq<char>,
    finds: Finds,
) -> bool {
    &&& buffer::is_registered(finds)
    &&& forall|k: int|
        0 <= k < finds.found.len() ==> list.contains((#[trigger] finds.found[k]).signature)
    &&& forall|k: int|
        0 <= k < finds.found.len() && (#[trigger] finds.found[k]).signature.extension@ == extension
            ==> is_right(source, list, finds.found[k])
    &&& forall|offset: u64| #[trigger]
        finds.seen.contains((offset, extension)) ==> buffer::found_from(
            finds.found,
            0,
            (offset, extension),
        )
}

proof fn lemma_block_keeps_all_right(
    source: Seq<u8>,
    list: Seq<FileSignature>,
    extension: Seq<char>,
    finds: Finds,
    from: int,
    to: int,
)
    requires
        source.len() <= u64::MAX,
        0 <= from <= to <= source.len(),
        is_tellable(source, list, extension),
        all_right(source, list, extension, finds),
    ensures
        all_right(
            source,
            list,
            extension,
            buffer::after_positions(
                finds,
                list,
                source.subrange(from, to),
                to - from,
                from,
                source.len() as int,
            ),
        ),
{
    let data = source.subrange(from, to);
    let size = source.len() as int;
    let upto = to - from;
    let after = buffer::after_positions(finds, list, data, upto, from, size);
    let count = finds.found.len() as int;
    buffer::law_finds_only_grow(finds, list, data, upto, from, size);
    buffer::law_finds_are_real(finds, list, data, upto, from, size);
    buffer::law_finds_stay_registered(finds, list, data, upto, from, size);
    assert forall|k: int| 0 <= k < count implies #[trigger] after.found[k] == finds.found[k] by {
        assert(after.found.take(count)[k] == finds.found[k]);
    }
    assert forall|k: int| 0 <= k < after.found.len() implies list.contains(
        (#[trigger] after.found[k]).signature,
    ) by {
        if k >= count {
            assert(buffer::is_real_find(after.found[k], list, data, from, size));
        } else {
            assert(list.contains(finds.found[k].signature));
        }
    }
    assert forall|k: int|
        0 <= k < after.found.len() && (#[trigger] after.found[k]).signature.extension@
            == extension implies is_right(source, list, after.found[k]) by {
        let file = after.found[k];
        if k >= count {
            assert(buffer::is_real_find(file, list, data, from, size));
            lemma_real_find_is_right(source, list, extension, file, from, to);
        } else {
            assert(finds.found[k] == file);
        }
    }
    assert forall|offset: u64| #[trigger] after.seen.contains(
        (offset, extension),
    ) implies buffer::found_from(after.found, 0, (offset, extension)) by {
        let key = (offset, extension);
        if finds.seen.contains(key) {
            let k = choose|k: int|
                0 <= k < finds.found.len() && buffer::key_of(#[trigger] finds.found[k]) == key;
            assert(buffer::key_of(after.found[k]) == key);
        } else {
            lemma_registered_is_found(source, list, extension, finds, from, to, offset);
        }
    }
}

proof fn lemma_real_find_is_right(
    source: Seq<u8>,
    list: Seq<FileSignature>,
    extension: Seq<char>,
    file: FoundFile,
    from: int,
    to: int,
)
    requires
        source.len() <= u64::MAX,
        0 <= from <= to <= source.len(),
        is_tellable(source, list, extension),
        file.signature.extension@ == extension,
        buffer::is_real_find(
            file,
            list,
            source.subrange(from, to),
            from,
            source.len() as int,
        ),
    ensures
        is_right(source, list, file),
{
    let t = choose|t: int| 0 <= t < list.len() && list[t] == file.signature;
    let offset = file.offset as int;
    assert(is_plain(list[t]));
    lemma_opens_in_a_part(source, from, to, list[t], offset);
    assert(is_clear(list[t], source, offset));
    law_every_part_tells_the_same(source, from, to, list[t], offset, file.index);
    let size = buffer::size_at(
        file.signature,
        source.subrange(from, to),
        offset - from,
        from,
        source.len() as int,
    );
    assert(find_of(file.signature, offset, size, file.index) == file);
}

proof fn lemma_registered_is_found(
    source: Seq<u8>,
    list: Seq<FileSignature>,
    extension: Seq<char>,
    finds: Finds,
    from: int,
    to: int,
    offset: u64,
)
    requires
        source.len() <= u64::MAX,
        0 <= from <= to <= source.len(),
        is_tellable(source, list, extension),
        !finds.seen.contains((offset, extension)),
        buffer::after_positions(
            finds,
            list,
            source.subrange(from, to),
            to - from,
            from,
            source.len() as int,
        ).seen.contains((offset, extension)),
    ensures
        buffer::found_from(
            buffer::after_positions(
                finds,
                list,
                source.subrange(from, to),
                to - from,
                from,
                source.len() as int,
            ).found,
            0,
            (offset, extension),
        ),
{
    let data = source.subrange(from, to);
    let size = source.len() as int;
    let upto = to - from;
    let after = buffer::after_positions(finds, list, data, upto, from, size);
    let key = (offset, extension);
    coverage::lemma_positions_register_openings(finds, list, data, upto, from, size, key);
    let (at, s) = choose|at: int, s: int|
        0 <= at < upto && 0 <= s < list.len() && #[trigger] buffer::opens_at(list[s], data, at) && (
        (from + at) as u64,
        list[s].extension@,
    ) == key;
    assert forall|t: int|
        0 <= t < list.len() && (#[trigger] list[t]).extension@ == list[s].extension@
            && buffer::opens_at(list[t], data, at) implies buffer::size_at(
        list[t],
        data,
        at,
        from,
        size,
    ).0 > MIN_FILE_SIZE by {
        assert(is_plain(list[t]));
        lemma_opens_in_a_part(source, from, to, list[t], from + at);
        assert(is_clear(list[t], source, from + at));
        law_every_part_tells_the_same(source, from, to, list[t], from + at, 0);
    }
    buffer::law_large_openings_are_found(finds, list, data, upto, from, size, at, s);
    let k = choose|k: int|
        finds.found.len() <= k < after.found.len() && buffer::key_of(#[trigger] after.found[k])
            == key;
    assert(buffer::key_of(after.found[k]) == key);
}

proof fn lemma_scan_is_right(
    source: Seq<u8>,
    list: Seq<FileSignature>,
    reach: int,
    end: int,
    extension: Seq<char>,
    scan: ScanModel,
)
    requires
        source.len() <= u64::MAX,
        end <= source.len(),
        0 <= reach,
        0 <= scan.position - scan.overlap.len(),
        scan.position <= end,
        scan.overlap == source.subrange(scan.position - scan.overlap.len(), scan.position),
        is_tellable(source, list, extension),
        all_right(source, list, extension, scan.finds),
    ensures
        all_right(
            source,
            list,
            extension,
            coverage::scanned(source, list, reach, end, scan).finds,
        ),
    decreases end - scan.position,
{
    if scan.position < end {
        let to = if scan.position + BUFFER_SIZE <= end { scan.position + BUFFER_SIZE } else { end };
        let data = source.subrange(scan.position, to);
        let next = scan.after(data, list, reach, source.len() as int);
        let base = scan.position - scan.overlap.len();
        assert(scan.overlap + data =~= source.subrange(base, to));
        lemma_block_keeps_all_right(source, list, extension, scan.finds, base, to);
        assert(next.overlap =~= source.subrange(to - next.overlap.len(), to));
        lemma_scan_is_right(source, list, reach, end, extension, next);
    }
}

/// The scan of a segment finds what is right, of every extension that the source tells.
pub proof fn law_segment_finds_are_right(
    source: Seq<u8>,
    list: Seq<FileSignature>,
    reach: int,
    segment: Segment,
    extension: Seq<char>,
)
    requires
        source.len() <= u64::MAX,
        segment.start <= segment.end <= source.len(),
        0 <= reach,
        is_tellable(source, list, extension),
    ensures
        all_right(source, list, extension, coverage::finds_of(source, list, reach, segment)),
{
    let start = ScanModel {
        position: segment.start as int,
        overlap: Seq::empty(),
        finds: Finds { found: Seq::empty(), seen: Set::empty() },
    };
    assert(start.overlap =~= source.subrange(start.position, start.position));
    lemma_scan_is_right(source, list, reach, segment.end as int, extension, start);
}

/// What the scans of the planned segments of a source that can be read report: each segment the
/// finds that it claims.
pub open spec fn are_scans(
    source: Seq<u8>,
    list: Seq<FileSignature>,
    reach: int,
    plan: Seq<Segment>,
    parts: Seq<SegmentResult>,
) -> bool {
    &&& parts.len() == plan.len()
    &&& forall|i: int|
        0 <= i < parts.len() ==> (#[trigger] parts[i]).found_files@ == segments::claimed(
            plan[i],
            coverage::finds_of(source, list, reach, plan[i]).found,
        )
}

/// No two formats of this extension open at the same place.
pub open spec fn one_format_each(
    source: Seq<u8>,
    list: Seq<FileSignature>,
    extension: Seq<char>,
) -> bool {
    forall|t: int, u: int, offset: int|
        0 <= t < list.len() && 0 <= u < list.len() && list[t].extension@ == extension
            && list[u].extension@ == extension && #[trigger] buffer::opens_at(list[t], source, offset)
            && #[trigger] buffer::opens_at(list[u], source, offset) ==> t == u
}

/// The find comes out of one of the files.
pub open spec fn comes_out(source: Seq<u8>, files: Seq<FoundFile>, find: FoundFile) -> bool {
    exists|k: int| 0 <= k < files.len() && outcome(source, #[trigger] files[k]) == find
}

/// A format of the list opens in the source, and this is what the source tells of it.
pub open spec fn is_owed(source: Seq<u8>, list: Seq<FileSignature>, find: FoundFile) -> bool {
    exists|t: int, offset: int|
        0 <= t < list.len() && 0 <= offset < source.len() && #[trigger] buffer::opens_at(
            list[t],
            source,
            offset,
        ) && find == told(list[t], source, offset)
}

/// The bytes kept of each block are enough for the formats of this extension.
pub open spec fn is_in_reach(list: Seq<FileSignature>, extension: Seq<char>, reach: int) -> bool {
    &&& 0 <= reach <= BUFFER_SIZE
    &&& forall|t: int|
        0 <= t < list.len() && (#[trigger] list[t]).extension@ == extension ==> segments::reach(
            list[t],
        ) <= reach
}

/// A scan finds what the source tells and nothing else, whatever the number of threads: once the
/// ends were settled, the finds of an extension are exactly those of the formats that open in
/// the source.
pub proof fn law_scan_finds_what_the_source_tells(
    source: Seq<u8>,
    list: Seq<FileSignature>,
    reach: int,
    num_threads: int,
    parts: Seq<SegmentResult>,
    find: FoundFile,
)
    requires
        source.len() <= u64::MAX,
        is_tellable(source, list, find.signature.extension@),
        one_format_each(source, list, find.signature.extension@),
        is_in_reach(list, find.signature.extension@, reach),
        are_scans(source, list, reach, run::planned(source.len() as int, num_threads, reach), parts),
        assemble::joined(parts, parts.len() as int).len() <= usize::MAX,
    ensures
        comes_out(source, run::first_finds(num_threads, parts), find) == is_owed(
            source,
            list,
            find,
        ),
{
    if comes_out(source, run::first_finds(num_threads, parts), find) {
        lemma_find_is_owed(source, list, reach, num_threads, parts, find);
    }
    if is_owed(source, list, find) {
        let (t, offset) = choose|t: int, offset: int|
            0 <= t < list.len() && 0 <= offset < source.len() && #[trigger] buffer::opens_at(
                list[t],
                source,
                offset,
            ) && find == told(list[t], source, offset);
        lemma_owed_is_found(source, list, reach, num_threads, parts, find, t, offset);
    }
}

proof fn lemma_find_is_owed(
    source: Seq<u8>,
    list: Seq<FileSignature>,
    reach: int,
    num_threads: int,
    parts: Seq<SegmentResult>,
    find: FoundFile,
)
    requires
        source.len() <= u64::MAX,
        is_tellable(source, list, find.signature.extension@),
        one_format_each(source, list, find.signature.extension@),
        is_in_reach(list, find.signature.extension@, reach),
        are_scans(source, list, reach, run::planned(source.len() as int, num_threads, reach), parts),
        assemble::joined(parts, parts.len() as int).len() <= usize::MAX,
        comes_out(source, run::first_finds(num_threads, parts), find),
    ensures
        is_owed(source, list, find),
{
    let extension = find.signature.extension@;
    let all = assemble::joined(parts, parts.len() as int);
    let files = run::first_finds(num_threads, parts);
    lemma_reports(source, list, reach, num_threads, parts, extension);
    lemma_first_finds(num_threads, parts);
    let k = choose|k: int| 0 <= k < files.len() && outcome(source, #[trigger] files[k]) == find;
    let p = choose|p: int| 0 <= p < all.len() && same_but_number(#[trigger] all[p], files[k]);
    let file = all[p];
    lemma_numbers_do_not_matter(source, file, files[k]);
    assert(file.signature.extension@ == extension);
    assert(is_right(source, list, file));
    let t = choose|t: int| 0 <= t < list.len() && list[t] == file.signature;
    assert(buffer::opens_at(list[t], source, file.offset as int));
}

proof fn lemma_owed_is_found(
    source: Seq<u8>,
    list: Seq<FileSignature>,
    reach: int,
    num_threads: int,
    parts: Seq<SegmentResult>,
    find: FoundFile,
    t: int,
    offset: int,
)
    requires
        source.len() <= u64::MAX,
        is_tellable(source, list, find.signature.extension@),
        one_format_each(source, list, find.signature.extension@),
        is_in_reach(list, find.signature.extension@, reach),
        are_scans(source, list, reach, run::planned(source.len() as int, num_threads, reach), parts),
        assemble::joined(parts, parts.len() as int).len() <= usize::MAX,
        0 <= t < list.len(),
        0 <= offset < source.len(),
        buffer::opens_at(list[t], source, offset),
        find == told(list[t], source, offset),
    ensures
        comes_out(source, run::first_finds(num_threads, parts), find),
{
    let extension = find.signature.extension@;
    let size = source.len() as int;
    let plan = run::planned(size, num_threads, reach);
    let all = assemble::joined(parts, parts.len() as int);
    let files = run::first_finds(num_threads, parts);
    assert(list[t].extension@ == extension);
    let i = lemma_some_segment_finds(source, list, reach, num_threads, t, offset);
    let found = coverage::finds_of(source, list, reach, plan[i]).found;
    let key = (offset as u64, extension);
    let k = choose|k: int|
        0 <= k < found.len() && buffer::key_of(#[trigger] found[k]) == key && segments::claims(
            plan[i],
            found[k],
        ) && is_right(source, list, found[k]);
    let file = found[k];
    let u = choose|u: int| 0 <= u < list.len() && list[u] == file.signature;
    assert(buffer::opens_at(list[u], source, offset));
    assert(u == t);
    segment_scan::lemma_claimed_are_kept(plan[i], found, k);
    assert(parts[i].found_files@.contains(file));
    lemma_joined_contains(parts, parts.len() as int, file);
    lemma_reports(source, list, reach, num_threads, parts, extension);
    lemma_first_finds(num_threads, parts);
    let p = choose|p: int| 0 <= p < all.len() && all[p] == file;
    let q = choose|q: int| 0 <= q < files.len() && same_but_number(#[trigger] files[q], all[p]);
    lemma_numbers_do_not_matter(source, file, files[q]);
    assert(outcome(source, files[q]) == find);
}

/// The segment that claims the place of a file finds it.
proof fn lemma_some_segment_finds(
    source: Seq<u8>,
    list: Seq<FileSignature>,
    reach: int,
    num_threads: int,
    t: int,
    offset: int,
) -> (i: int)
    requires
        source.len() <= u64::MAX,
        0 <= t < list.len(),
        is_tellable(source, list, list[t].extension@),
        is_in_reach(list, list[t].extension@, reach),
        0 <= offset < source.len(),
        buffer::opens_at(list[t], source, offset),
    ensures
        ({
            let plan = run::planned(source.len() as int, num_threads, reach);
            let found = coverage::finds_of(source, list, reach, plan[i]).found;
            &&& 0 <= i < plan.len()
            &&& exists|k: int|
                0 <= k < found.len() && buffer::key_of(#[trigger] found[k]) == (
                    offset as u64,
                    list[t].extension@,
                ) && segments::claims(plan[i], found[k]) && is_right(source, list, found[k])
        }),
{
    let extension = list[t].extension@;
    let size = source.len() as int;
    let plan = run::planned(size, num_threads, reach);
    assert(source.subrange(0, size) =~= source);
    lemma_opens_in_a_part(source, 0, size, list[t], offset);
    coverage::law_threads_recognise_what_opens(source, list, num_threads, reach, t, offset);
    let i = choose|i: int| #[trigger]
        coverage::recognised_by(source, list, reach, plan, i, list[t], offset);
    let finds = coverage::finds_of(source, list, reach, plan[i]);
    lemma_plan_is_sound(size, num_threads, reach, i);
    law_segment_finds_are_right(source, list, reach, plan[i], extension);
    let key = (offset as u64, extension);
    assert(finds.seen.contains(key));
    let k = choose|k: int|
        0 <= k < finds.found.len() && buffer::key_of(#[trigger] finds.found[k]) == key;
    assert(is_right(source, list, finds.found[k]));
    i
}

/// The number of a find makes no difference to what comes out of it.
pub proof fn lemma_numbers_do_not_matter(source: Seq<u8>, one: FoundFile, other: FoundFile)
    requires
        same_but_number(one, other),
    ensures
        outcome(source, one) == outcome(source, other),
        outcome(source, one).signature == one.signature,
{
    assert(refine::footer_search_of(one) =~= refine::footer_search_of(other));
    let size = source.len() as u64;
    assert(refine::box_walk_of(after_search(source, one), size) == refine::box_walk_of(
        after_search(source, other),
        size,
    ));
}

/// What a scan finds does not depend on the number of threads: once the ends were settled, two
/// scans of a source have the same finds of an extension.
pub proof fn law_threads_find_the_same(
    source: Seq<u8>,
    list: Seq<FileSignature>,
    reach: int,
    one: int,
    one_parts: Seq<SegmentResult>,
    other: int,
    other_parts: Seq<SegmentResult>,
    find: FoundFile,
)
    requires
        source.len() <= u64::MAX,
        is_tellable(source, list, find.signature.extension@),
        one_format_each(source, list, find.signature.extension@),
        is_in_reach(list, find.signature.extension@, reach),
        are_scans(source, list, reach, run::planned(source.len() as int, one, reach), one_parts),
        are_scans(source, list, reach, run::planned(source.len() as int, other, reach), other_parts),
        assemble::joined(one_parts, one_parts.len() as int).len() <= usize::MAX,
        assemble::joined(other_parts, other_parts.len() as int).len() <= usize::MAX,
    ensures
        comes_out(source, run::first_finds(one, one_parts), find) == comes_out(
            source,
            run::first_finds(other, other_parts),
            find,
        ),
{
    law_scan_finds_what_the_source_tells(source, list, reach, one, one_parts, find);
    law_scan_finds_what_the_source_tells(source, list, reach, other, other_parts, find);
}

/// Two files that differ in their number at most.
pub open spec fn same_but_number(one: FoundFile, other: FoundFile) -> bool {
    FoundFile { index: 0, ..one } == (FoundFile { index: 0, ..other })
}

/// One of the files differs from this one in its number at most.
pub open spec fn has_twin(files: Seq<FoundFile>, file: FoundFile) -> bool {
    exists|k: int| 0 <= k < files.len() && same_but_number(#[trigger] files[k], file)
}

proof fn lemma_plan_is_sound(size: int, num_threads: int, reach: int, i: int)
    requires
        0 <= size <= u64::MAX,
        0 <= reach,
        0 <= i < run::planned(size, num_threads, reach).len(),
    ensures
        ({
            let segment = run::planned(size, num_threads, reach)[i];
            segment.start <= segment.end <= size
        }),
{
    if num_threads > 1 {
        segments::law_segments_read_their_claims(size, num_threads, reach, i);
    }
}

/// The segments report right finds of the extension, and no file twice.
pub proof fn lemma_reports(
    source: Seq<u8>,
    list: Seq<FileSignature>,
    reach: int,
    num_threads: int,
    parts: Seq<SegmentResult>,
    extension: Seq<char>,
)
    requires
        source.len() <= u64::MAX,
        is_tellable(source, list, extension),
        0 <= reach,
        are_scans(source, list, reach, run::planned(source.len() as int, num_threads, reach), parts),
    ensures
        ({
            let all = assemble::joined(parts, parts.len() as int);
            &&& buffer::has_no_repeats(all)
            &&& forall|p: int| 0 <= p < all.len() ==> list.contains((#[trigger] all[p]).signature)
            &&& forall|p: int|
                0 <= p < all.len() && (#[trigger] all[p]).signature.extension@ == extension
                    ==> is_right(source, list, all[p])
        }),
{
    let size = source.len() as int;
    let plan = run::planned(size, num_threads, reach);
    let all = assemble::joined(parts, parts.len() as int);
    assert forall|i: int| 0 <= i < parts.len() implies buffer::has_no_repeats(
        (#[trigger] parts[i]).found_files@,
    ) && run::all_claimed(plan[i], parts[i].found_files@) by {
        lemma_plan_is_sound(size, num_threads, reach, i);
        law_segment_finds_are_right(source, list, reach, plan[i], extension);
        segment_scan::lemma_claimed(
            plan[i],
            coverage::finds_of(source, list, reach, plan[i]).found,
        );
    }
    run::lemma_joined_has_no_repeats(size, num_threads, reach, parts);
    assert forall|p: int| 0 <= p < all.len() implies list.contains((#[trigger] all[p]).signature) && (
    all[p].signature.extension@ == extension ==> is_right(source, list, all[p])) by {
        let file = all[p];
        assert(all.contains(file));
        lemma_joined_contains(parts, parts.len() as int, file);
        let i = choose|i: int|
            0 <= i < parts.len() && #[trigger] parts[i].found_files@.contains(file);
        let k = choose|k: int|
            0 <= k < parts[i].found_files@.len() && parts[i].found_files@[k] == file;
        let found = coverage::finds_of(source, list, reach, plan[i]).found;
        lemma_plan_is_sound(size, num_threads, reach, i);
        law_segment_finds_are_right(source, list, reach, plan[i], extension);
        segment_scan::lemma_claimed(plan[i], found);
        assert(found.contains(file));
        let q = choose|q: int| 0 <= q < found.len() && found[q] == file;
        assert(list.contains(found[q].signature));
    }
}

proof fn lemma_joined_contains(parts: Seq<SegmentResult>, n: int, file: FoundFile)
    requires
        0 <= n <= parts.len(),
    ensures
        assemble::joined(parts, n).contains(file) == exists|i: int|
            0 <= i < n && #[trigger] parts[i].found_files@.contains(file),
    decreases n,
{
    if n > 0 {
        lemma_joined_contains(parts, n - 1, file);
        let before = assemble::joined(parts, n - 1);
        let more = parts[n - 1].found_files@;
        let now = assemble::joined(parts, n);
        if now.contains(file) {
            let p = choose|p: int| 0 <= p < now.len() && now[p] == file;
            if p < before.len() {
                assert(before[p] == file);
                assert(before.contains(file));
            } else {
                assert(more[p - before.len()] == file);
                assert(parts[n - 1].found_files@.contains(file));
            }
        }
        if before.contains(file) {
            let p = choose|p: int| 0 <= p < before.len() && before[p] == file;
            assert(now[p] == file);
        }
        if more.contains(file) {
            let p = choose|p: int| 0 <= p < more.len() && more[p] == file;
            assert(now[before.len() + p] == file);
        }
    }
}

/// Merging changes nothing but the order and the numbers.
pub proof fn lemma_first_finds(num_threads: int, parts: Seq<SegmentResult>)
    requires
        buffer::has_no_repeats(assemble::joined(parts, parts.len() as int)),
        assemble::joined(parts, parts.len() as int).len() <= usize::MAX,
    ensures
        ({
            let all = assemble::joined(parts, parts.len() as int);
            let files = run::first_finds(num_threads, parts);
            &&& files.len() == all.len()
            &&& forall|k: int| 0 <= k < files.len() ==> has_twin(all, #[trigger] files[k])
            &&& forall|p: int| 0 <= p < all.len() ==> has_twin(files, #[trigger] all[p])
        }),
{
    let all = assemble::joined(parts, parts.len() as int);
    let files = run::first_finds(num_threads, parts);
    let sorted = assemble::by_offset(all);
    if num_threads > 1 {
        assemble::law_merging_adds_no_repeats(all);
        assert(files == assemble::numbered(sorted));
    }
    assert forall|k: int| 0 <= k < files.len() implies has_twin(all, #[trigger] files[k]) by {
        if num_threads > 1 {
            assemble::law_ordering_keeps_every_file(all, sorted[k]);
            assert(sorted.contains(sorted[k]));
            let p = choose|p: int| 0 <= p < all.len() && all[p] == sorted[k];
            assert(same_but_number(all[p], files[k]));
        } else {
            assert(same_but_number(all[k], files[k]));
        }
    }
    assert forall|p: int| 0 <= p < all.len() implies has_twin(files, #[trigger] all[p]) by {
        if num_threads > 1 {
            assemble::law_ordering_keeps_every_file(all, all[p]);
            assert(all.contains(all[p]));
            let k = choose|k: int| 0 <= k < sorted.len() && sorted[k] == all[p];
            assert(same_but_number(files[k], all[p]));
        } else {
            assert(same_but_number(files[p], all[p]));
        }
    }
}

} // verus!
