//! Looking for known files in one buffer of the source.

use vstd::prelude::*;

use crate::bytes;
use crate::scanner::found::FoundFile;
use crate::scanner::nesting;
use crate::scanner::seen::SeenKeys;
use crate::signatures::ooxml;
use crate::signatures::table;
use crate::signatures::{self, FileSignature};

verus! {

broadcast use vstd::slice::group_slice_axioms;

/// A find of at most this many bytes is taken for a chance match.
pub const MIN_FILE_SIZE: u64 = 512;

/// Whether a signature is one of an office document, which its header tells.
pub open spec fn is_zip_ooxml(signature: FileSignature) -> bool {
    signature.header@ == table::zip_entry()
}

/// `signature` fits the bytes of `data` at `at`: its header stands there, its further bytes do,
/// and its validator accepts what follows.
pub open spec fn opens_at(signature: FileSignature, data: Seq<u8>, at: int) -> bool {
    let header_at = at + signature.header_offset;
    &&& bytes::pattern_at(data, header_at, signature.header@)
    &&& signature.extra_check matches Some((extra, offset)) ==> bytes::pattern_at(
        data,
        at + offset,
        extra@,
    )
    &&& signature.validator matches Some((validator, needed)) ==> {
        &&& header_at + needed <= data.len()
        &&& validator.holds(data.skip(header_at))
    }
}

/// Most bytes that a file of this format at `offset` can take.
pub open spec fn room_at(signature: FileSignature, offset: int, source_size: int) -> int {
    let left = if offset <= source_size { source_size - offset } else { 0 };
    if signature.max_size <= left { signature.max_size as int } else { left }
}

/// The size found, where it is one and fits the room; else the room, unconfirmed.
pub open spec fn settled(found: Option<int>, room: int) -> (int, bool) {
    match found {
        Some(size) => if 0 < size <= room { (size, true) } else { (room, false) },
        None => (room, false),
    }
}

/// Size that the bytes of `data` show for the file of this format at `at`: by the end record of
/// an office package, by walking through the file, by a size field, or by a footer.
pub open spec fn shown_size(
    signature: FileSignature,
    data: Seq<u8>,
    at: int,
    base: int,
    source_size: int,
) -> Option<int> {
    let room = room_at(signature, base + at, source_size);
    let limit = if at + room <= data.len() { at + room } else { data.len() as int };
    if is_zip_ooxml(signature) {
        ooxml::zip_end(data.subrange(at, limit))
    } else if let Some(stream) = signatures::stream_format(signature.name@) {
        stream.end(data.subrange(at, limit), base + limit >= source_size)
    } else if let Some((offset, len)) = signature.size_from_header {
        let field = at + signature.header_offset + offset;
        if field + len <= data.len() {
            Some(bytes::le_value(data.subrange(field, field + len)) as int)
        } else {
            None
        }
    } else if let Some(footer) = signature.footer {
        match nesting::closing_footer(
            data,
            signature.header@,
            footer@,
            at + signature.header_offset + signature.header@.len(),
            limit,
        ) {
            Some(close) => Some(close - at + footer@.len()),
            None => None,
        }
    } else {
        None
    }
}

/// Size of the file of this format at `at`, and whether its bytes confirm it.
pub open spec fn size_at(
    signature: FileSignature,
    data: Seq<u8>,
    at: int,
    base: int,
    source_size: int,
) -> (int, bool) {
    settled(
        shown_size(signature, data, at, base, source_size),
        room_at(signature, base + at, source_size),
    )
}

/// The finds so far and the keys under which they are registered.
#[verifier::ext_equal]
pub struct Finds {
    pub found: Seq<FoundFile>,
    pub seen: Set<(u64, Seq<char>)>,
}

/// The finds after `signature` was tried at `at` of `data`, which starts at `base` of the source.
pub open spec fn after_try(
    finds: Finds,
    signature: FileSignature,
    data: Seq<u8>,
    at: int,
    base: int,
    source_size: int,
) -> Finds {
    let key = ((base + at) as u64, signature.extension@);
    if !opens_at(signature, data, at) || finds.seen.contains(key) {
        finds
    } else {
        let (size, closed) = size_at(signature, data, at, base, source_size);
        let file = FoundFile {
            signature: signature,
            offset: (base + at) as u64,
            size: size as u64,
            index: (finds.found.len() + 1) as usize,
            footer_found: closed,
            end_unknown: false,
        };
        Finds {
            found: if size > MIN_FILE_SIZE { finds.found.push(file) } else { finds.found },
            seen: finds.seen.insert(key),
        }
    }
}

/// The finds after the first `count` signatures were tried at `at`.
pub open spec fn after_signatures(
    finds: Finds,
    list: Seq<FileSignature>,
    count: int,
    data: Seq<u8>,
    at: int,
    base: int,
    source_size: int,
) -> Finds
    decreases count,
{
    if count <= 0 {
        finds
    } else {
        after_try(
            after_signatures(finds, list, count - 1, data, at, base, source_size),
            list[count - 1],
            data,
            at,
            base,
            source_size,
        )
    }
}

/// The finds after every signature was tried at each of the first `upto` positions.
pub open spec fn after_positions(
    finds: Finds,
    list: Seq<FileSignature>,
    data: Seq<u8>,
    upto: int,
    base: int,
    source_size: int,
) -> Finds
    decreases upto,
{
    if upto <= 0 {
        finds
    } else {
        after_signatures(
            after_positions(finds, list, data, upto - 1, base, source_size),
            list,
            list.len() as int,
            data,
            upto - 1,
            base,
            source_size,
        )
    }
}

/// Scanning only adds finds: those before stay, in place.
pub proof fn law_finds_only_grow(
    finds: Finds,
    list: Seq<FileSignature>,
    data: Seq<u8>,
    upto: int,
    base: int,
    source_size: int,
)
    ensures
        ({
            let after = after_positions(finds, list, data, upto, base, source_size);
            &&& finds.found.len() <= after.found.len()
            &&& after.found.take(finds.found.len() as int) == finds.found
            &&& finds.seen.subset_of(after.seen)
        }),
    decreases upto,
{
    if upto > 0 {
        law_finds_only_grow(finds, list, data, upto - 1, base, source_size);
        let before = after_positions(finds, list, data, upto - 1, base, source_size);
        lemma_signatures_only_add(
            before,
            list,
            list.len() as int,
            data,
            upto - 1,
            base,
            source_size,
        );
        let after = after_positions(finds, list, data, upto, base, source_size);
        assert(after.found.take(finds.found.len() as int) =~= before.found.take(
            finds.found.len() as int,
        )) by {
            assert(after.found.take(before.found.len() as int) == before.found);
            assert forall|k: int| 0 <= k < finds.found.len() implies after.found[k]
                == before.found[k] by {
                assert(after.found.take(before.found.len() as int)[k] == before.found[k]);
            }
        }
    } else {
        assert(finds.found.take(finds.found.len() as int) =~= finds.found);
    }
}

proof fn lemma_signatures_only_add(
    finds: Finds,
    list: Seq<FileSignature>,
    count: int,
    data: Seq<u8>,
    at: int,
    base: int,
    source_size: int,
)
    ensures
        ({
            let after = after_signatures(finds, list, count, data, at, base, source_size);
            &&& finds.found.len() <= after.found.len()
            &&& after.found.take(finds.found.len() as int) == finds.found
            &&& finds.seen.subset_of(after.seen)
        }),
    decreases count,
{
    let after = after_signatures(finds, list, count, data, at, base, source_size);
    if count > 0 {
        lemma_signatures_only_add(finds, list, count - 1, data, at, base, source_size);
        let before = after_signatures(finds, list, count - 1, data, at, base, source_size);
        assert(after.found.take(finds.found.len() as int) =~= before.found.take(
            finds.found.len() as int,
        ));
    } else {
        assert(finds.found.take(finds.found.len() as int) =~= finds.found);
    }
}

/// A find made in `data`: a signature of the list opens there, and the size is the one that the
/// bytes show or the largest that fits.
pub open spec fn is_real_find(
    file: FoundFile,
    list: Seq<FileSignature>,
    data: Seq<u8>,
    base: int,
    source_size: int,
) -> bool {
    &&& base <= file.offset < base + data.len()
    &&& list.contains(file.signature)
    &&& opens_at(file.signature, data, file.offset - base)
    &&& file.size > MIN_FILE_SIZE
    &&& (file.size as int, file.footer_found) == size_at(
        file.signature,
        data,
        file.offset - base,
        base,
        source_size,
    )
    &&& !file.end_unknown
}

/// The key under which a find is registered.
pub open spec fn key_of(file: FoundFile) -> (u64, Seq<char>) {
    (file.offset, file.signature.extension@)
}

/// No two finds have the same offset and extension.
pub open spec fn has_no_repeats(files: Seq<FoundFile>) -> bool {
    forall|j: int, k: int|
        0 <= j < k < files.len() ==> key_of(#[trigger] files[j]) != key_of(#[trigger] files[k])
}

/// Every find is registered, and no two are alike.
pub open spec fn is_registered(finds: Finds) -> bool {
    &&& forall|k: int|
        0 <= k < finds.found.len() ==> finds.seen.contains(key_of(#[trigger] finds.found[k]))
    &&& has_no_repeats(finds.found)
}

/// What was added to `start`: real finds only, none of them known before, no two alike.
pub open spec fn adds_real_finds(
    start: Finds,
    now: Finds,
    list: Seq<FileSignature>,
    data: Seq<u8>,
    base: int,
    source_size: int,
) -> bool {
    &&& start.found.len() <= now.found.len()
    &&& start.seen.subset_of(now.seen)
    &&& forall|k: int|
        start.found.len() <= k < now.found.len() ==> {
            &&& is_real_find(#[trigger] now.found[k], list, data, base, source_size)
            &&& now.seen.contains(key_of(now.found[k]))
            &&& !start.seen.contains(key_of(now.found[k]))
        }
    &&& forall|j: int, k: int|
        start.found.len() <= j < k < now.found.len() ==> key_of(#[trigger] now.found[j]) != key_of(
            #[trigger] now.found[k],
        )
}

/// Scanning a buffer adds only real finds, none of them known before, and no two with the same
/// offset and extension.
pub proof fn law_finds_are_real(
    finds: Finds,
    list: Seq<FileSignature>,
    data: Seq<u8>,
    upto: int,
    base: int,
    source_size: int,
)
    requires
        0 <= base,
        base + data.len() <= u64::MAX,
        0 <= source_size <= u64::MAX,
        upto <= data.len(),
    ensures
        adds_real_finds(
            finds,
            after_positions(finds, list, data, upto, base, source_size),
            list,
            data,
            base,
            source_size,
        ),
    decreases upto,
{
    if upto > 0 {
        law_finds_are_real(finds, list, data, upto - 1, base, source_size);
        lemma_signatures_add_real_finds(
            finds,
            after_positions(finds, list, data, upto - 1, base, source_size),
            list,
            list.len() as int,
            data,
            upto - 1,
            base,
            source_size,
        );
    }
}

proof fn lemma_signatures_add_real_finds(
    start: Finds,
    finds: Finds,
    list: Seq<FileSignature>,
    count: int,
    data: Seq<u8>,
    at: int,
    base: int,
    source_size: int,
)
    requires
        adds_real_finds(start, finds, list, data, base, source_size),
        count <= list.len(),
        0 <= at < data.len(),
        0 <= base,
        base + data.len() <= u64::MAX,
        0 <= source_size <= u64::MAX,
    ensures
        adds_real_finds(
            start,
            after_signatures(finds, list, count, data, at, base, source_size),
            list,
            data,
            base,
            source_size,
        ),
    decreases count,
{
    if count > 0 {
        lemma_signatures_add_real_finds(
            start,
            finds,
            list,
            count - 1,
            data,
            at,
            base,
            source_size,
        );
        let before = after_signatures(finds, list, count - 1, data, at, base, source_size);
        let after = after_signatures(finds, list, count, data, at, base, source_size);
        let signature = list[count - 1];
        assert(list.contains(signature));
        if after.found.len() > before.found.len() {
            let file = after.found[before.found.len() as int];
            assert(is_real_find(file, list, data, base, source_size));
        }
    }
}

/// Scanning a buffer keeps the finds registered, and so adds none that is known already.
pub proof fn law_finds_stay_registered(
    finds: Finds,
    list: Seq<FileSignature>,
    data: Seq<u8>,
    upto: int,
    base: int,
    source_size: int,
)
    requires
        0 <= base,
        base + data.len() <= u64::MAX,
        0 <= source_size <= u64::MAX,
        upto <= data.len(),
        is_registered(finds),
    ensures
        is_registered(after_positions(finds, list, data, upto, base, source_size)),
{
    let after = after_positions(finds, list, data, upto, base, source_size);
    let count = finds.found.len() as int;
    law_finds_only_grow(finds, list, data, upto, base, source_size);
    law_finds_are_real(finds, list, data, upto, base, source_size);
    assert forall|k: int| 0 <= k < count implies #[trigger] after.found[k] == finds.found[k] by {
        assert(after.found.take(count)[k] == finds.found[k]);
    }
    assert forall|k: int| 0 <= k < after.found.len() implies after.seen.contains(
        key_of(#[trigger] after.found[k]),
    ) by {
        if k < count {
            assert(finds.seen.contains(key_of(finds.found[k])));
        }
    }
    assert forall|j: int, k: int| 0 <= j < k < after.found.len() implies key_of(
        #[trigger] after.found[j],
    ) != key_of(#[trigger] after.found[k]) by {
        if j < count {
            assert(finds.seen.contains(key_of(finds.found[j])));
            if k < count {
                assert(key_of(finds.found[j]) != key_of(finds.found[k]));
            }
        }
    }
}

/// Nothing that opens in the buffer is passed over: its offset and extension are registered.
pub proof fn law_every_opening_is_registered(
    finds: Finds,
    list: Seq<FileSignature>,
    data: Seq<u8>,
    upto: int,
    base: int,
    source_size: int,
    at: int,
    s: int,
)
    requires
        0 <= at < upto,
        0 <= s < list.len(),
        opens_at(list[s], data, at),
    ensures
        after_positions(finds, list, data, upto, base, source_size).seen.contains(
            ((base + at) as u64, list[s].extension@),
        ),
    decreases upto,
{
    let before = after_positions(finds, list, data, upto - 1, base, source_size);
    if at < upto - 1 {
        law_every_opening_is_registered(finds, list, data, upto - 1, base, source_size, at, s);
        lemma_signatures_only_add(
            before,
            list,
            list.len() as int,
            data,
            upto - 1,
            base,
            source_size,
        );
    } else {
        lemma_opening_is_registered(
            before,
            list,
            list.len() as int,
            data,
            at,
            base,
            source_size,
            s,
        );
    }
}

proof fn lemma_opening_is_registered(
    finds: Finds,
    list: Seq<FileSignature>,
    count: int,
    data: Seq<u8>,
    at: int,
    base: int,
    source_size: int,
    s: int,
)
    requires
        0 <= s < count <= list.len(),
        opens_at(list[s], data, at),
    ensures
        after_signatures(finds, list, count, data, at, base, source_size).seen.contains(
            ((base + at) as u64, list[s].extension@),
        ),
    decreases count,
{
    if s < count - 1 {
        lemma_opening_is_registered(finds, list, count - 1, data, at, base, source_size, s);
    }
}

/// A find with this key stands at position `from` or behind it.
pub open spec fn found_from(found: Seq<FoundFile>, from: int, key: (u64, Seq<char>)) -> bool {
    exists|k: int| from <= k < found.len() && key_of(#[trigger] found[k]) == key
}

/// What opens in the buffer is found: with an offset and extension not registered before, and with
/// more bytes than a chance match under every signature of that extension that opens there, it is
/// among the finds that the buffer adds.
pub proof fn law_large_openings_are_found(
    finds: Finds,
    list: Seq<FileSignature>,
    data: Seq<u8>,
    upto: int,
    base: int,
    source_size: int,
    at: int,
    s: int,
)
    requires
        0 <= at < upto <= data.len(),
        0 <= base,
        base + data.len() <= u64::MAX,
        0 <= s < list.len(),
        opens_at(list[s], data, at),
        !finds.seen.contains(((base + at) as u64, list[s].extension@)),
        forall|t: int|
            0 <= t < list.len() && (#[trigger] list[t]).extension@ == list[s].extension@ && opens_at(
                list[t],
                data,
                at,
            ) ==> size_at(list[t], data, at, base, source_size).0 > MIN_FILE_SIZE,
    ensures
        found_from(
            after_positions(finds, list, data, upto, base, source_size).found,
            finds.found.len() as int,
            ((base + at) as u64, list[s].extension@),
        ),
    decreases upto,
{
    let key = ((base + at) as u64, list[s].extension@);
    let before = after_positions(finds, list, data, upto - 1, base, source_size);
    let after = after_positions(finds, list, data, upto, base, source_size);
    let count = list.len() as int;
    law_finds_only_grow(finds, list, data, upto - 1, base, source_size);
    if at < upto - 1 {
        law_large_openings_are_found(finds, list, data, upto - 1, base, source_size, at, s);
        lemma_signatures_only_add(before, list, count, data, upto - 1, base, source_size);
        let k = choose|k: int|
            finds.found.len() <= k < before.found.len() && key_of(#[trigger] before.found[k]) == key;
        assert(after.found.take(before.found.len() as int)[k] == after.found[k]);
        assert(key_of(after.found[k]) == key);
    } else {
        lemma_earlier_positions_register_others(
            finds,
            list,
            data,
            at,
            base,
            source_size,
            key.0,
            key.1,
        );
        lemma_opening_is_registered(before, list, count, data, at, base, source_size, s);
        lemma_registered_openings_are_found(before, list, count, data, at, base, source_size, key.1);
        let k = choose|k: int|
            before.found.len() <= k < after.found.len() && key_of(#[trigger] after.found[k]) == key;
        assert(key_of(after.found[k]) == key);
    }
}

proof fn lemma_earlier_positions_register_others(
    finds: Finds,
    list: Seq<FileSignature>,
    data: Seq<u8>,
    upto: int,
    base: int,
    source_size: int,
    offset: u64,
    extension: Seq<char>,
)
    requires
        0 <= base,
        base + upto <= offset,
        !finds.seen.contains((offset, extension)),
    ensures
        !after_positions(finds, list, data, upto, base, source_size).seen.contains(
            (offset, extension),
        ),
    decreases upto,
{
    if upto > 0 {
        lemma_earlier_positions_register_others(
            finds,
            list,
            data,
            upto - 1,
            base,
            source_size,
            offset,
            extension,
        );
        lemma_signatures_register_their_place(
            after_positions(finds, list, data, upto - 1, base, source_size),
            list,
            list.len() as int,
            data,
            upto - 1,
            base,
            source_size,
            offset,
            extension,
        );
    }
}

proof fn lemma_signatures_register_their_place(
    finds: Finds,
    list: Seq<FileSignature>,
    count: int,
    data: Seq<u8>,
    at: int,
    base: int,
    source_size: int,
    offset: u64,
    extension: Seq<char>,
)
    requires
        0 <= base + at,
        base + at < offset,
        !finds.seen.contains((offset, extension)),
    ensures
        !after_signatures(finds, list, count, data, at, base, source_size).seen.contains(
            (offset, extension),
        ),
    decreases count,
{
    if count > 0 {
        lemma_signatures_register_their_place(
            finds,
            list,
            count - 1,
            data,
            at,
            base,
            source_size,
            offset,
            extension,
        );
        assert((base + at) as u64 != offset);
    }
}

proof fn lemma_registered_openings_are_found(
    finds: Finds,
    list: Seq<FileSignature>,
    count: int,
    data: Seq<u8>,
    at: int,
    base: int,
    source_size: int,
    extension: Seq<char>,
)
    requires
        count <= list.len(),
        !finds.seen.contains(((base + at) as u64, extension)),
        forall|t: int|
            0 <= t < list.len() && (#[trigger] list[t]).extension@ == extension && opens_at(
                list[t],
                data,
                at,
            ) ==> size_at(list[t], data, at, base, source_size).0 > MIN_FILE_SIZE,
    ensures
        ({
            let after = after_signatures(finds, list, count, data, at, base, source_size);
            let key = ((base + at) as u64, extension);
            after.seen.contains(key) ==> found_from(after.found, finds.found.len() as int, key)
        }),
    decreases count,
{
    if count > 0 {
        lemma_registered_openings_are_found(
            finds,
            list,
            count - 1,
            data,
            at,
            base,
            source_size,
            extension,
        );
        lemma_signatures_only_add(finds, list, count - 1, data, at, base, source_size);
        let key = ((base + at) as u64, extension);
        let before = after_signatures(finds, list, count - 1, data, at, base, source_size);
        let after = after_signatures(finds, list, count, data, at, base, source_size);
        if before.seen.contains(key) {
            let k = choose|k: int|
                finds.found.len() <= k < before.found.len() && key_of(#[trigger] before.found[k])
                    == key;
            assert(after.found[k] == before.found[k]);
            assert(key_of(after.found[k]) == key);
        } else if after.seen.contains(key) {
            assert(list[count - 1].extension@ == extension);
            assert(after.found.len() == before.found.len() + 1);
            assert(key_of(after.found[before.found.len() as int]) == key);
        }
    }
}

/// Whether a signature is one of an office document.
pub fn signature_is_zip_ooxml(signature: &FileSignature) -> (yes: bool)
    ensures
        yes == is_zip_ooxml(*signature),
{
    let header = signature.header;
    let yes = header.len() == 4 && header[0] == 0x50 && header[1] == 0x4B && header[2] == 0x03
        && header[3] == 0x04;
    proof {
        if yes {
            assert(header@ =~= table::zip_entry());
        }
    }
    yes
}

/// Length of the ZIP that starts at `start`, reading no further than `search_limit`.
pub fn zip_ooxml_size(data: &[u8], start: usize, search_limit: usize) -> (size: Option<usize>)
    ensures
        ({
            let limit = if search_limit <= data@.len() {
                search_limit as int
            } else {
                data@.len() as int
            };
            if start >= limit {
                size is None
            } else {
                let end = ooxml::zip_end(data@.subrange(start as int, limit));
                &&& size is Some <==> end is Some
                &&& size matches Some(n) ==> end == Some(n as int) && n <= limit - start
            }
        }),
{
    let limit: usize = if search_limit <= data.len() { search_limit } else { data.len() };
    if start >= limit {
        return None;
    }
    ooxml::zip_local_file_end(vstd::slice::slice_subrange(data, start, limit))
}

fn read_size_field(data: &[u8], at: usize, len: usize) -> (value: u64)
    requires
        at + len <= data.len(),
        len <= 8,
    ensures
        value == bytes::le_value(data@.subrange(at as int, at + len)),
{
    let ghost field = data@.subrange(at as int, at + len);
    let mut value: u64 = 0;
    let mut left: usize = len;
    proof {
        assert(field.skip(len as int) =~= Seq::<u8>::empty());
        vstd::arithmetic::power::lemma_pow0(256);
    }
    while left > 0
        invariant
            left <= len <= 8,
            at + len <= data.len(),
            field == data@.subrange(at as int, at + len),
            value == bytes::le_value(field.skip(left as int)),
            value < vstd::arithmetic::power::pow(256, (len - left) as nat),
        decreases left,
    {
        proof {
            lemma_bytes_fit((len - left) as nat);
            let rest = field.skip(left - 1);
            assert(rest.skip(1) =~= field.skip(left as int));
            assert(rest[0] == data@[at + left - 1]);
        }
        value = value * 256 + data[at + left - 1] as u64;
        left = left - 1;
    }
    assert(field.skip(0) =~= field);
    value
}

proof fn lemma_bytes_fit(count: nat)
    requires
        count <= 7,
    ensures
        vstd::arithmetic::power::pow(256, count + 1) == 256 * vstd::arithmetic::power::pow(
            256,
            count,
        ),
        256 * vstd::arithmetic::power::pow(256, count) <= 0x1_0000_0000_0000_0000,
{
    reveal_with_fuel(vstd::arithmetic::power::pow, 9);
}

fn signature_opens(signature: &FileSignature, data: &[u8], at: usize) -> (yes: bool)
    requires
        at <= data.len(),
    ensures
        yes == opens_at(*signature, data@, at as int),
{
    if signature.header_offset > data.len() - at {
        return false;
    }
    let header_at: usize = at + signature.header_offset;
    if !bytes::matches_at(data, header_at, signature.header) {
        return false;
    }
    if let Some((extra, offset)) = signature.extra_check {
        if offset > data.len() - at || !bytes::matches_at(data, at + offset, extra) {
            return false;
        }
    }
    if let Some((validator, needed)) = signature.validator {
        if needed > data.len() - header_at {
            return false;
        }
        let rest = vstd::slice::slice_subrange(data, header_at, data.len());
        assert(rest@ == data@.skip(header_at as int));
        if !validator.accepts(rest) {
            return false;
        }
    }
    true
}

fn settle(found: Option<u64>, room: u64) -> (result: (u64, bool))
    ensures
        (result.0 as int, result.1) == settled(
            match found {
                Some(size) => Some(size as int),
                None => None,
            },
            room as int,
        ),
{
    match found {
        Some(size) => if size > 0 && size <= room {
            (size, true)
        } else {
            (room, false)
        },
        None => (room, false),
    }
}

fn file_size_at(
    signature: &FileSignature,
    data: &[u8],
    at: usize,
    base: u64,
    source_size: u64,
) -> (result: (u64, bool))
    requires
        at < data.len(),
        base + data.len() <= u64::MAX,
        signature.well_formed(),
        opens_at(*signature, data@, at as int),
    ensures
        (result.0 as int, result.1) == size_at(
            *signature,
            data@,
            at as int,
            base as int,
            source_size as int,
        ),
{
    let offset: u64 = base + at as u64;
    let left: u64 = if offset <= source_size { source_size - offset } else { 0 };
    let room: u64 = if signature.max_size as u64 <= left { signature.max_size as u64 } else { left };
    let limit: usize = if room <= (data.len() - at) as u64 {
        at + room as usize
    } else {
        data.len()
    };
    assert(room == room_at(*signature, offset as int, source_size as int));
    let mut found: Option<u64> = None;
    if signature_is_zip_ooxml(signature) {
        proof {
            if at >= limit {
                assert(data@.subrange(at as int, limit as int).len() == 0);
            }
        }
        match zip_ooxml_size(data, at, limit) {
            Some(n) => {
                found = Some(n as u64);
            },
            None => {},
        }
    } else if let Some(stream) = signature.stream_end() {
        let part = vstd::slice::slice_subrange(data, at, limit);
        let at_source_end = base + limit as u64 >= source_size;
        match stream.size(part, at_source_end) {
            Some(n) => {
                found = Some(n as u64);
            },
            None => {},
        }
    } else if let Some((field_at, len)) = signature.size_from_header {
        let header_at: usize = at + signature.header_offset;
        if field_at <= data.len() - header_at && len <= data.len() - header_at - field_at {
            found = Some(read_size_field(data, header_at + field_at, len));
        }
    } else if let Some(footer) = signature.footer {
        let start: usize = at + signature.header_offset + signature.header.len();
        match nesting::find_footer_nested(data, signature.header, footer, start, limit) {
            Some(close) => {
                proof {
                    let margin = nesting::nesting_margin(signature.header@, footer@);
                    let from = if start >= margin { start - margin } else { 0 };
                    nesting::law_closing_footer_is_a_footer(
                        data@,
                        signature.header@,
                        footer@,
                        1,
                        start as int,
                        from as int,
                        limit as int,
                    );
                }
                found = Some((close - at) as u64 + footer.len() as u64);
            },
            None => {},
        }
    }
    settle(found, room)
}

/// Tries every signature at every position of `data`, which stands at `base_offset` of the
/// source, and adds what is found. Nothing registered in `seen` is added again.
pub fn check_signatures_in_buffer(
    data: &[u8],
    base_offset: u64,
    list: &[FileSignature],
    found_files: &mut Vec<FoundFile>,
    source_size: u64,
    seen: &mut SeenKeys,
)
    requires
        base_offset + data.len() <= u64::MAX,
        table::all_well_formed(list@),
    ensures
        (Finds { found: final(found_files)@, seen: final(seen)@ }) == after_positions(
            Finds { found: old(found_files)@, seen: old(seen)@ },
            list@,
            data@,
            data@.len() as int,
            base_offset as int,
            source_size as int,
        ),
{
    let ghost start = Finds { found: found_files@, seen: seen@ };
    let mut i: usize = 0;
    while i < data.len()
        invariant
            i <= data.len(),
            base_offset + data.len() <= u64::MAX,
            table::all_well_formed(list@),
            (Finds { found: found_files@, seen: seen@ }) == after_positions(
                start,
                list@,
                data@,
                i as int,
                base_offset as int,
                source_size as int,
            ),
        decreases data@.len() - i,
    {
        let ghost here = Finds { found: found_files@, seen: seen@ };
        let mut s: usize = 0;
        while s < list.len()
            invariant
                s <= list@.len(),
                i < data.len(),
                base_offset + data.len() <= u64::MAX,
                table::all_well_formed(list@),
                (Finds { found: found_files@, seen: seen@ }) == after_signatures(
                    here,
                    list@,
                    s as int,
                    data@,
                    i as int,
                    base_offset as int,
                    source_size as int,
                ),
            decreases list@.len() - s,
        {
            try_signature(&list[s], data, i, base_offset, found_files, source_size, seen);
            s = s + 1;
        }
        i = i + 1;
    }
}

fn try_signature(
    signature: &FileSignature,
    data: &[u8],
    at: usize,
    base: u64,
    found_files: &mut Vec<FoundFile>,
    source_size: u64,
    seen: &mut SeenKeys,
)
    requires
        at < data.len(),
        base + data.len() <= u64::MAX,
        signature.well_formed(),
    ensures
        (Finds { found: final(found_files)@, seen: final(seen)@ }) == after_try(
            Finds { found: old(found_files)@, seen: old(seen)@ },
            *signature,
            data@,
            at as int,
            base as int,
            source_size as int,
        ),
{
    if !signature_opens(signature, data, at) {
        return ;
    }
    let offset: u64 = base + at as u64;
    if !seen.insert(offset, signature.extension) {
        assert(seen@ =~= old(seen)@);
        return ;
    }
    let (size, footer_found) = file_size_at(signature, data, at, base, source_size);
    if size > MIN_FILE_SIZE {
        found_files.push(
            FoundFile {
                signature: *signature,
                offset,
                size,
                index: 0,
                footer_found,
                end_unknown: false,
            },
        );
        let count: usize = found_files.len();
        found_files.set(
            count - 1,
            FoundFile {
                signature: *signature,
                offset,
                size,
                index: count,
                footer_found,
                end_unknown: false,
            },
        );
        assert(found_files@ =~= old(found_files)@.push(found_files@[count - 1]));
    }
}

} // verus!
