//! How large a find is, by what its bytes show.

use vstd::prelude::*;

use crate::bytes;
use crate::scanner::buffer::{self, Finds};
use crate::scanner::nesting;
use crate::signatures::{audio, isobmff, magic, ooxml, table, FileSignature};
use crate::signatures;

verus! {

/// The most that a file at `offset` can take: as much as its format allows, and no more than the
/// source holds from there.
pub open spec fn is_most(most: int, signature: FileSignature, offset: int, source_size: int) -> bool {
    &&& most <= signature.max_size
    &&& offset + most <= source_size
    &&& most == signature.max_size || offset + most == source_size
}

/// The size that a size field names is believed where it fits.
pub proof fn law_size_fields_are_believed(
    signature: FileSignature,
    data: Seq<u8>,
    at: int,
    base: int,
    source_size: int,
    most: int,
)
    requires
        signature.model() == table::known_signatures()[3],
        0 <= at,
        at + 34 <= data.len(),
        base + at <= source_size,
        is_most(most, signature, base + at, source_size),
    ensures
        ({
            let said = bytes::le32(data, at + 2);
            buffer::size_at(signature, data, at, base, source_size) == if 0 < said <= most {
                (said, true)
            } else {
                (most, false)
            }
        }),
{
    magic::law_bmps_are_recognised(signature, data, at);
    let field = data.subrange(at + 2, at + 6);
    reveal_with_fuel(bytes::le_value, 5);
    assert(field.skip(1).skip(1) =~= data.subrange(at + 4, at + 6));
    assert(field.skip(1).skip(1).skip(1) =~= data.subrange(at + 5, at + 6));
    lemma_bmp_is_no_stream();
    assert(signature.header@.len() == 2);
    assert(table::zip_entry().len() == 4);
}

proof fn lemma_bmp_is_no_stream()
    ensures
        signatures::stream_format("BMP"@) is None,
{
    reveal_strlit("BMP");
    reveal_strlit("MP3 (ID3)");
    reveal_strlit("MP3 (Sync)");
    reveal_strlit("AAC");
    reveal_strlit("MP4/M4V");
    reveal_strlit("HEIC/HEIF");
    reveal_strlit("3GP");
    reveal_strlit("M4A");
    assert("BMP"@.len() == 3 && "BMP"@[0] == 'B' && "AAC"@[0] == 'A' && "3GP"@[0] == '3'
        && "M4A"@[0] == 'M');
    assert("MP3 (ID3)"@.len() == 9 && "MP3 (Sync)"@.len() == 10 && "MP4/M4V"@.len() == 7
        && "HEIC/HEIF"@.len() == 9);
}

/// A file ends with its footer: with the first one behind its header, where no header of its format
/// comes between. A footer behind the largest size of the format does not count.
pub proof fn law_files_end_with_their_footer(
    signature: FileSignature,
    data: Seq<u8>,
    at: int,
    base: int,
    source_size: int,
    most: int,
    close: int,
)
    requires
        !buffer::is_zip_ooxml(signature),
        signatures::stream_format(signature.name@) is None,
        signature.size_from_header is None,
        signature.footer matches Some(footer) && 0 < footer@.len() <= signature.header@.len()
            && bytes::pattern_at(data, close, footer@),
        0 <= at,
        base + at <= source_size,
        is_most(most, signature, base + at, source_size),
        ({
            let from = at + signature.header_offset + signature.header@.len();
            &&& from <= close
            &&& close + signature.footer->0@.len() <= at + most
            &&& forall|p: int|
                at + signature.header_offset < p < close ==> !#[trigger] bytes::pattern_at(
                    data,
                    p,
                    signature.footer->0@,
                )
            &&& forall|p: int|
                at + signature.header_offset < p < close ==> !#[trigger] bytes::pattern_at(
                    data,
                    p,
                    signature.header@,
                )
        }),
    ensures
        buffer::size_at(signature, data, at, base, source_size) == (
            close + signature.footer->0@.len() - at,
            true,
        ),
{
    let (header, footer) = (signature.header@, signature.footer->0@);
    let start = at + signature.header_offset + header.len();
    let limit = if at + most <= data.len() { at + most } else { data.len() as int };
    nesting::law_first_footer_closes_a_flat_file(
        data,
        header,
        footer,
        start,
        start - (header.len() - 1),
        limit,
        close,
    );
}

/// A file that holds another one of its format ends with its own footer: the one behind that of the
/// file inside.
pub proof fn law_files_inside_do_not_end_a_file(
    signature: FileSignature,
    data: Seq<u8>,
    at: int,
    base: int,
    source_size: int,
    most: int,
    inner: int,
    inner_close: int,
    close: int,
)
    requires
        !buffer::is_zip_ooxml(signature),
        signatures::stream_format(signature.name@) is None,
        signature.size_from_header is None,
        signature.header_offset == 0,
        signature.footer matches Some(footer) && 0 < footer@.len() <= signature.header@.len(),
        0 <= at,
        base + at <= source_size,
        is_most(most, signature, base + at, source_size),
        ({
            let (header, footer) = (signature.header@, signature.footer->0@);
            &&& at + header.len() <= inner
            &&& inner + header.len() <= inner_close
            &&& inner_close + footer.len() <= close
            &&& close + footer.len() <= at + most
            &&& bytes::pattern_at(data, inner, header)
            &&& bytes::pattern_at(data, inner_close, footer)
            &&& bytes::pattern_at(data, close, footer)
            &&& forall|p: int|
                at < p < close && p != inner_close ==> !#[trigger] bytes::pattern_at(data, p, footer)
            &&& forall|p: int|
                at < p < close && p != inner ==> !#[trigger] bytes::pattern_at(data, p, header)
        }),
    ensures
        buffer::size_at(signature, data, at, base, source_size) == (
            close + signature.footer->0@.len() - at,
            true,
        ),
{
    let (header, footer) = (signature.header@, signature.footer->0@);
    let start = at + header.len();
    let limit = if at + most <= data.len() { at + most } else { data.len() as int };
    nesting::lemma_skip_plain(data, header, footer, 1, start, at + 1, inner, limit);
    nesting::law_nested_file_is_passed_over(data, header, footer, start, inner, inner_close, limit);
    nesting::law_first_footer_closes_a_flat_file(
        data,
        header,
        footer,
        start,
        inner_close + footer.len(),
        limit,
        close,
    );
}

/// Without an end of its own a file is as large as it can be, and is not confirmed; so is one of
/// which the end is not shown.
pub proof fn law_files_without_an_end_take_the_room(
    signature: FileSignature,
    data: Seq<u8>,
    at: int,
    base: int,
    source_size: int,
    most: int,
)
    requires
        !buffer::is_zip_ooxml(signature),
        signatures::stream_format(signature.name@) is None,
        signature.size_from_header is None,
        signature.footer is None,
        0 <= at,
        base + at <= source_size,
        is_most(most, signature, base + at, source_size),
    ensures
        buffer::size_at(signature, data, at, base, source_size) == (most, false),
{
}

/// A stream is as large as following it shows, a package as its end record shows; what lies behind
/// the largest size of the format is not looked at, and an end at the end of the data counts only
/// where the source ends there.
pub proof fn law_streams_are_as_large_as_they_show(
    signature: FileSignature,
    data: Seq<u8>,
    at: int,
    base: int,
    source_size: int,
    most: int,
)
    requires
        0 <= at <= data.len(),
        base + at <= source_size,
        base + data.len() <= source_size,
        is_most(most, signature, base + at, source_size),
    ensures
        ({
            let seen = if at + most <= data.len() { at + most } else { data.len() as int };
            let part = data.subrange(at, seen);
            let last = base + seen == source_size;
            let size = buffer::size_at(signature, data, at, base, source_size);
            let is = |end: Option<int>|
                size == (match end {
                    Some(n) => if 0 < n <= most { (n, true) } else { (most, false) },
                    None => (most, false),
                });
            let model = signature.model();
            &&& model == table::known_signatures()[14] || model == table::known_signatures()[15]
                ==> is(audio::mp3_end(part, last))
            &&& model == table::known_signatures()[19] ==> is(audio::aac_end(part, last))
            &&& model == table::known_signatures()[8] || model == table::known_signatures()[9]
                || model == table::known_signatures()[13] || model
                == table::known_signatures()[20] ==> is(isobmff::file_end(part, last))
            &&& model == table::known_signatures()[25] || model == table::known_signatures()[26]
                || model == table::known_signatures()[27] ==> is(ooxml::zip_end(part))
        }),
{
    magic::law_streams_are_followed(signature);
    if signature.model() == table::known_signatures()[14] {
        assert(signature.header@.len() == 3);
    }
    if signature.model() == table::known_signatures()[15] || signature.model()
        == table::known_signatures()[19] {
        assert(signature.header@.len() == 2);
    }
    if signature.model() == table::known_signatures()[13] || signature.model()
        == table::known_signatures()[20] {
        assert(signature.header@.len() == 7);
    }
    if signature.model() == table::known_signatures()[8] || signature.model()
        == table::known_signatures()[9] {
        assert(signature.header@[0] == 0x66);
    }
    assert(table::zip_entry().len() == 4 && table::zip_entry()[0] == 0x50);
}

/// A format that opens is found once, where it was not known before and takes more than 512 bytes:
/// at its place, with its size, and with the next number. Whatever its size, it is known from then
/// on.
pub proof fn law_openings_are_found_once(
    finds: Finds,
    signature: FileSignature,
    data: Seq<u8>,
    at: int,
    base: int,
    source_size: int,
)
    requires
        0 <= base + at <= u64::MAX,
        finds.found.len() < usize::MAX,
        ({
            let size = buffer::size_at(signature, data, at, base, source_size).0;
            0 <= size <= u64::MAX
        }),
    ensures
        ({
            let after = buffer::after_try(finds, signature, data, at, base, source_size);
            let (size, closed) = buffer::size_at(signature, data, at, base, source_size);
            let n = finds.found.len() as int;
            let known = finds.seen.contains(((base + at) as u64, signature.extension@));
            let fresh = buffer::opens_at(signature, data, at) && !known;
            &&& after.found.len() == n + if fresh && size > 512 { 1int } else { 0int }
            &&& after.found.take(n) == finds.found
            &&& fresh ==> after.seen.contains(((base + at) as u64, signature.extension@))
            &&& fresh && size > 512 ==> {
                let file = after.found[n];
                &&& file.signature == signature
                &&& file.offset == base + at
                &&& file.size == size
                &&& file.footer_found == closed
                &&& file.index == n + 1
                &&& !file.end_unknown
            }
        }),
{
    let after = buffer::after_try(finds, signature, data, at, base, source_size);
    assert(after.found.take(finds.found.len() as int) =~= finds.found);
}

} // verus!
