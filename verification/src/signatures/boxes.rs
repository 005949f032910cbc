//! What holds of files made of boxes: they end with the last of their boxes.

use vstd::prelude::*;

use crate::bytes;
use crate::scanner::ends::EndResult;
use crate::scanner::walk_audio;
use crate::scanner::walk_boxes::{self, BoxWalk};
use crate::signatures::isobmff::{self, BoxLen};

verus! {

/// The four letters behind the length of a box at `at`.
pub open spec fn is_called(data: Seq<u8>, at: int, a: char, b: char, c: char, d: char) -> bool {
    data[at + 4] as char == a && data[at + 5] as char == b && data[at + 6] as char == c && data[at
        + 7] as char == d
}

/// The box at `at` carries an index: of a whole video, of a part of one, or of an image.
pub open spec fn carries_index(data: Seq<u8>, at: int) -> bool {
    ||| is_called(data, at, 'm', 'o', 'o', 'v')
    ||| is_called(data, at, 'm', 'o', 'o', 'f')
    ||| is_called(data, at, 'm', 'e', 't', 'a')
}

/// The letters at `at` can be those of a box.
pub open spec fn is_spelt(data: Seq<u8>, at: int) -> bool {
    forall|k: int| at + 4 <= k < at + 8 ==> 0x20 <= #[trigger] data[k] && data[k] < 0x7F
}

/// A box of `len` bytes stands at `at`: its length is written in four bytes, or it is written there
/// that eight bytes behind the type hold it.
pub open spec fn is_box(data: Seq<u8>, at: int, len: int) -> bool {
    &&& 0 <= at
    &&& at + len <= data.len()
    &&& is_spelt(data, at)
    &&& {
        ||| 8 <= len && bytes::be32(data, at) == len
        ||| 16 <= len && bytes::be32(data, at) == 1 && bytes::be64(data, at + 8) == len
    }
}

/// Boxes stand end to end at these places, from the start up to the last place. The first one is
/// called `ftyp` and is short, and no other one is.
pub open spec fn stand_end_to_end(data: Seq<u8>, places: Seq<int>) -> bool {
    &&& 2 <= places.len() <= 200_000
    &&& places[0] == 0
    &&& places[1] <= 4096
    &&& forall|k: int|
        0 <= k < places.len() - 1 ==> #[trigger] is_box(data, places[k], places[k + 1] - places[k])
    &&& forall|k: int|
        0 <= k < places.len() - 1 ==> (#[trigger] is_called(
            data,
            places[k],
            'f',
            't',
            'y',
            'p',
        )) == (k == 0)
}

/// One of the first `n` boxes carries an index.
pub open spec fn index_before(data: Seq<u8>, places: Seq<int>, n: int) -> bool {
    exists|k: int| 0 <= k < n && #[trigger] carries_index(data, places[k])
}

/// No box follows at `at`: the data ends there, or something stands there that is no box, or the
/// next file opens.
pub open spec fn ends_at(data: Seq<u8>, at: int) -> bool {
    ||| data.len() == at
    ||| data.len() >= at + 16 && (!is_spelt(data, at) || is_called(data, at, 'f', 't', 'y', 'p'))
}

/// A file closes at the end of its last box, where an index is among its boxes: `moov`, `moof` or
/// `meta`. Without one it is no file. Where the data ends with the last box, that is the end only
/// if the source ends there too.
pub proof fn law_files_close_at_their_last_box(
    data: Seq<u8>,
    places: Seq<int>,
    at_source_end: bool,
)
    requires
        stand_end_to_end(data, places),
        ends_at(data, places.last()),
        places.len() >= 3,
        places.len() <= 64 || index_before(data, places, 64),
    ensures
        isobmff::file_end(data, at_source_end) == if index_before(
            data,
            places,
            places.len() - 1,
        ) && (at_source_end || data.len() > places.last()) {
            Some(places.last())
        } else {
            None
        },
{
    let n = places.len() - 1;
    let end = places.last();
    lemma_places_rise(data, places, 0);
    if data.len() == end && !at_source_end {
        lemma_unfinished(data, places, 0, false);
    } else {
        lemma_boxes_reach(data, places, at_source_end, 0);
        lemma_end_has_no_box(data, end);
    }
}

proof fn lemma_places_rise(data: Seq<u8>, places: Seq<int>, k: int)
    requires
        stand_end_to_end(data, places),
        0 <= k < places.len(),
    ensures
        places[k] + 8 * (places.len() - 1 - k) <= places.last(),
        places.last() <= data.len(),
        0 <= places[k],
    decreases places.len() - k,
{
    if k < places.len() - 1 {
        assert(is_box(data, places[k], places[k + 1] - places[k]));
        lemma_places_rise(data, places, k + 1);
    } else {
        assert(is_box(data, places[k - 1], places[k - 1 + 1] - places[k - 1]));
    }
}

/// What the letters at a place say, in the terms of the walk.
proof fn lemma_letters(data: Seq<u8>, at: int)
    requires
        0 <= at,
        at + 8 <= data.len(),
    ensures
        ({
            let view = isobmff::box_view(data, at);
            &&& is_spelt(data, at) == isobmff::box_type(view) is Some
            &&& is_spelt(data, at) ==> (isobmff::box_type(view)->0 == isobmff::ftyp()) == is_called(
                data,
                at,
                'f',
                't',
                'y',
                'p',
            )
            &&& is_spelt(data, at) ==> isobmff::is_index_type(isobmff::box_type(view)->0)
                == carries_index(data, at)
        }),
{
    let view = isobmff::box_view(data, at);
    assert(view[4] == data[at + 4] && view[5] == data[at + 5] && view[6] == data[at + 6] && view[7]
        == data[at + 7]);
    if isobmff::box_type(view) is Some {
        assert forall|k: int| at + 4 <= k < at + 8 implies 0x20 <= #[trigger] data[k] && data[k]
            < 0x7F by {
            assert(k == at + 4 || k == at + 5 || k == at + 6 || k == at + 7);
        }
    }
    let kind = view.subrange(4, 8);
    if is_called(data, at, 'f', 't', 'y', 'p') {
        assert(kind =~= isobmff::ftyp());
    }
    if kind == isobmff::ftyp() {
        assert(kind[0] == 0x66 && kind[1] == 0x74 && kind[2] == 0x79 && kind[3] == 0x70);
    }
    if is_called(data, at, 'm', 'o', 'o', 'v') {
        assert(kind =~= seq![0x6Du8, 0x6Fu8, 0x6Fu8, 0x76u8]);
    }
    if is_called(data, at, 'm', 'o', 'o', 'f') {
        assert(kind =~= seq![0x6Du8, 0x6Fu8, 0x6Fu8, 0x66u8]);
    }
    if is_called(data, at, 'm', 'e', 't', 'a') {
        assert(kind =~= seq![0x6Du8, 0x65u8, 0x74u8, 0x61u8]);
    }
    if isobmff::is_index_type(kind) {
        assert(kind[0] == data[at + 4] && kind[1] == data[at + 5] && kind[2] == data[at + 6]
            && kind[3] == data[at + 7]);
    }
}

/// What a box at a place says, in the terms of the walk.
proof fn lemma_box(data: Seq<u8>, at: int, len: int, is_first: bool)
    requires
        is_box(data, at, len),
        len <= u64::MAX,
    ensures
        isobmff::box_len(isobmff::box_view(data, at), is_first) == isobmff::BoxLen::Bytes(
            len as u64,
        ),
        isobmff::box_type(isobmff::box_view(data, at)) is Some,
{
    let view = isobmff::box_view(data, at);
    lemma_letters(data, at);
    assert(bytes::be32(view, 0) == bytes::be32(data, at));
    if len >= 16 {
        assert(bytes::be64(view, 8) == bytes::be64(data, at + 8));
    }
}

proof fn lemma_end_has_no_box(data: Seq<u8>, at: int)
    requires
        0 <= at,
        ends_at(data, at),
    ensures
        data.len() > at ==> {
            let view = isobmff::box_view(data, at);
            isobmff::box_type(view) is None || isobmff::box_type(view)->0 == isobmff::ftyp()
        },
{
    if data.len() > at {
        lemma_letters(data, at);
    }
}

proof fn lemma_index_step(data: Seq<u8>, places: Seq<int>, k: int)
    ensures
        k >= 0 ==> index_before(data, places, k + 1) == (index_before(data, places, k)
            || carries_index(data, places[k])),
        !index_before(data, places, 0),
{
    if k >= 0 && index_before(data, places, k + 1) && !carries_index(data, places[k]) {
        let j = choose|j: int| 0 <= j < k + 1 && #[trigger] carries_index(data, places[j]);
        assert(j < k);
    }
    if k >= 0 && index_before(data, places, k) {
        let j = choose|j: int| 0 <= j < k && #[trigger] carries_index(data, places[j]);
        assert(carries_index(data, places[j]));
    }
}

/// The first 64 boxes hold an index, or there are no more of them.
spec fn index_is_early(data: Seq<u8>, places: Seq<int>) -> bool {
    places.len() <= 64 || index_before(data, places, 64)
}

proof fn lemma_under_the_cap(data: Seq<u8>, places: Seq<int>, k: int)
    requires
        stand_end_to_end(data, places),
        index_is_early(data, places),
        0 <= k < places.len(),
    ensures
        k < isobmff::box_cap(index_before(data, places, k)),
{
    if !index_before(data, places, k) && places.len() > 64 {
        let j = choose|j: int| 0 <= j < 64 && #[trigger] carries_index(data, places[j]);
        if j < k {
            assert(carries_index(data, places[j]));
        }
    }
}

proof fn lemma_boxes_reach(data: Seq<u8>, places: Seq<int>, at_source_end: bool, k: int)
    requires
        stand_end_to_end(data, places),
        index_is_early(data, places),
        0 <= k < places.len(),
        at_source_end || data.len() >= places.last() + 16,
        data.len() == places.last() || data.len() >= places.last() + 16,
    ensures
        isobmff::boxes_end(
            data,
            at_source_end,
            places[k],
            k,
            index_before(data, places, k),
        ) == isobmff::boxes_end(
            data,
            at_source_end,
            places.last(),
            places.len() - 1,
            index_before(data, places, places.len() - 1),
        ),
    decreases places.len() - k,
{
    if k < places.len() - 1 {
        lemma_under_the_cap(data, places, k);
        lemma_places_rise(data, places, k);
        lemma_one_box(data, places, at_source_end, k);
        lemma_boxes_reach(data, places, at_source_end, k + 1);
    }
}

proof fn lemma_one_box(data: Seq<u8>, places: Seq<int>, at_source_end: bool, k: int)
    requires
        stand_end_to_end(data, places),
        0 <= k < places.len() - 1,
        k < isobmff::box_cap(index_before(data, places, k)),
        at_source_end || data.len() >= places[k] + 16,
    ensures
        isobmff::boxes_end(
            data,
            at_source_end,
            places[k],
            k,
            index_before(data, places, k),
        ) == isobmff::boxes_end(
            data,
            at_source_end,
            places[k + 1],
            k + 1,
            index_before(data, places, k + 1),
        ),
{
    let at = places[k];
    let len = places[k + 1] - at;
    assert(is_box(data, at, len));
    assert(is_called(data, places[k], 'f', 't', 'y', 'p') == (k == 0));
    lemma_places_rise(data, places, k);
    lemma_places_rise(data, places, k + 1);
    if len <= u64::MAX {
        lemma_box(data, at, len, k == 0);
    }
    lemma_letters(data, at);
    lemma_index_step(data, places, k);
}

/// Data that ends with a box does not show the end of the file.
proof fn lemma_unfinished(data: Seq<u8>, places: Seq<int>, k: int, seen: bool)
    requires
        stand_end_to_end(data, places),
        data.len() == places.last(),
        0 <= k < places.len(),
    ensures
        isobmff::boxes_end(data, false, places[k], k, seen) is None,
    decreases places.len() - k,
{
    if k < places.len() - 1 {
        let at = places[k];
        let len = places[k + 1] - at;
        assert(is_box(data, at, len));
        assert(is_called(data, places[k], 'f', 't', 'y', 'p') == (k == 0));
        lemma_places_rise(data, places, k);
        lemma_places_rise(data, places, k + 1);
        if len <= u64::MAX {
            lemma_box(data, at, len, k == 0);
        }
        lemma_letters(data, at);
        lemma_unfinished(data, places, k + 1, seen || carries_index(data, at));
    }
}

/// The walk along the boxes of a source comes to the end of the last box too.
pub proof fn law_files_are_settled_at_their_last_box(
    source: Seq<u8>,
    offset: u64,
    max_size: u64,
    places: Seq<int>,
)
    requires
        offset <= source.len() <= u64::MAX,
        stand_end_to_end(source.skip(offset as int), places),
        ends_at(source.skip(offset as int), places.last()),
        places.len() >= 3,
        places.last() + 16 <= max_size,
        places.len() <= 64 || index_before(source.skip(offset as int), places, 64),
        index_before(source.skip(offset as int), places, places.len() - 1),
    ensures
        walk_boxes::walked(
            source,
            BoxWalk {
                offset: offset,
                max_size: max_size,
                source_size: source.len() as u64,
                pos: 0,
                boxes: 0,
                has_index: false,
            },
        ) == EndResult::Size(places.last() as u64),
{
    let rest = source.skip(offset as int);
    let end = places.last();
    let cut = if rest.len() == end { end } else { end + 16 };
    let data = rest.take(cut);
    let walk = BoxWalk {
        offset: offset,
        max_size: max_size,
        source_size: source.len() as u64,
        pos: 0,
        boxes: 0,
        has_index: false,
    };
    lemma_places_rise(rest, places, 0);
    assert(data =~= source.subrange(offset as int, offset + cut));
    assert forall|k: int| 0 <= k < places.len() - 1 implies #[trigger] is_box(
        data,
        places[k],
        places[k + 1] - places[k],
    ) by {
        assert(is_box(rest, places[k], places[k + 1] - places[k]));
        lemma_places_rise(rest, places, k);
        lemma_places_rise(rest, places, k + 1);
        lemma_same_box(rest, cut, places[k], places[k + 1] - places[k]);
    }
    assert forall|k: int| 0 <= k < places.len() - 1 implies (#[trigger] is_called(
        data,
        places[k],
        'f',
        't',
        'y',
        'p',
    )) == (k == 0) by {
        lemma_places_rise(rest, places, k);
        assert(is_called(rest, places[k], 'f', 't', 'y', 'p') == (k == 0));
    }
    if rest.len() > end {
        assert(is_spelt(data, end) ==> is_spelt(rest, end)) by {
            assert forall|k: int| end + 4 <= k < end + 8 implies rest[k] == data[k] by {}
        }
    }
    let n = places.len() - 1;
    lemma_same_index(rest, cut, places, n);
    if places.len() > 64 {
        lemma_same_index(rest, cut, places, 64);
    }
    law_files_close_at_their_last_box(data, places, offset + cut == source.len());
    walk_boxes::law_buffer_and_source_agree(source, walk, offset + cut, end);
}

proof fn lemma_same_box(data: Seq<u8>, cut: int, at: int, len: int)
    requires
        is_box(data, at, len),
        at + len <= cut <= data.len(),
    ensures
        is_box(data.take(cut), at, len),
{
    let head = data.take(cut);
    assert forall|k: int| at + 4 <= k < at + 8 implies 0x20 <= #[trigger] head[k] && head[k] < 0x7F by {
        assert(data[k] == head[k]);
    }
}

proof fn lemma_same_index(data: Seq<u8>, cut: int, places: Seq<int>, n: int)
    requires
        stand_end_to_end(data, places),
        places.last() <= cut <= data.len(),
        index_before(data, places, n),
        n <= places.len() - 1,
    ensures
        index_before(data.take(cut), places, n),
{
    let k = choose|k: int| 0 <= k < n && #[trigger] carries_index(data, places[k]);
    lemma_places_rise(data, places, k);
    assert(carries_index(data.take(cut), places[k]));
}

/// A file of which the last box runs past the end of the source is cut off there: it is assumed to
/// reach as far as the source and the largest size of its format let it, if it has an index, and is
/// none without one.
pub proof fn law_cut_files_reach_to_the_end(source: Seq<u8>, walk: BoxWalk, len: int)
    requires
        walk.source_size == source.len(),
        walk.offset + walk.pos + 8 <= source.len(),
        walk.pos <= walk.max_size,
        walk.max_size > 0,
        walk.boxes > 0,
        walk.boxes < 64,
        is_spelt(source, walk.offset + walk.pos),
        !is_called(source, walk.offset + walk.pos, 'f', 't', 'y', 'p'),
        bytes::be32(source, walk.offset + walk.pos) == len,
        8 <= len,
        source.len() < walk.offset + walk.pos + len <= u64::MAX,
    ensures
        ({
            let left = source.len() - walk.offset;
            let most = if left <= walk.max_size { left } else { walk.max_size as int };
            walk_boxes::walked(source, walk) == if walk.has_index {
                EndResult::SizeGuess(most as u64)
            } else {
                EndResult::Rejected
            }
        }),
{
    let at = walk.offset + walk.pos;
    let view = walk_audio::read_of(source, at, 16);
    assert(view =~= isobmff::box_view(source, at));
    lemma_letters(source, at);
    assert(bytes::be32(view, 0) == bytes::be32(source, at));
}

/// An image is told by the letters behind `ftyp`: `heic`, `heix`, `heim`, `heis`, the same four of
/// `hev`, and `mif1` and `msf1`. Videos for phones open with `3gp`, and music with `M4A`. What is
/// none of these is a video.
pub proof fn law_brands_are_told_by_their_letters(data: Seq<u8>)
    requires
        data.len() >= 8,
    ensures
        ({
            let (a, b, c, d) = (
                data[4] as char,
                data[5] as char,
                data[6] as char,
                data[7] as char,
            );
            let last = d == 'c' || d == 'x' || d == 'm' || d == 's';
            let image = (a == 'h' && b == 'e' && (c == 'i' || c == 'v') && last) || (a == 'm' && (b
                == 'i' || b == 's') && c == 'f' && d == '1');
            let phone = (a == '3' && b == 'g' && c == 'p') || (a == 'M' && b == '4' && c == 'A');
            &&& isobmff::heic_ok(data) == image
            &&& isobmff::is_3gp_or_m4a(data) == phone
            &&& isobmff::mp4_ok(data) == (!image && !phone)
        }),
{
    let name = isobmff::brand(data);
    assert(name[0] == data[4] && name[1] == data[5] && name[2] == data[6] && name[3] == data[7]);
    lemma_four(name, 0x68, 0x65, 0x69, 0x63);
    lemma_four(name, 0x68, 0x65, 0x69, 0x78);
    lemma_four(name, 0x68, 0x65, 0x76, 0x63);
    lemma_four(name, 0x68, 0x65, 0x76, 0x78);
    lemma_four(name, 0x68, 0x65, 0x69, 0x6D);
    lemma_four(name, 0x68, 0x65, 0x69, 0x73);
    lemma_four(name, 0x68, 0x65, 0x76, 0x6D);
    lemma_four(name, 0x68, 0x65, 0x76, 0x73);
    lemma_four(name, 0x6D, 0x69, 0x66, 0x31);
    lemma_four(name, 0x6D, 0x73, 0x66, 0x31);
}

proof fn lemma_four(name: Seq<u8>, a: u8, b: u8, c: u8, d: u8)
    requires
        name.len() == 4,
    ensures
        (name == seq![a, b, c, d]) == (name[0] == a && name[1] == b && name[2] == c && name[3] == d),
{
    if name[0] == a && name[1] == b && name[2] == c && name[3] == d {
        assert(name =~= seq![a, b, c, d]);
    }
}

/// A box says how long it is in its first four bytes, the highest first. A one stands for a longer
/// number behind the type, and a zero for all the rest of the file, which is nothing for a first box
/// to say. No box is shorter than its own header.
pub proof fn law_boxes_say_how_long_they_are(view: Seq<u8>, is_first: bool, len: u64)
    requires
        view.len() >= 16,
    ensures
        isobmff::box_len(view, is_first) == BoxLen::Bytes(len) <==> {
            ||| 8 <= len && bytes::be32(view, 0) == len
            ||| 16 <= len && bytes::be32(view, 0) == 1 && bytes::be64(view, 8) == len
        },
        isobmff::box_len(view, is_first) is ToEndOfFile <==> bytes::be32(view, 0) == 0 && !is_first,
{
    lemma_long_lengths_fit(view);
}

proof fn lemma_long_lengths_fit(view: Seq<u8>)
    requires
        view.len() >= 16,
    ensures
        0 <= bytes::be32(view, 0) <= u32::MAX,
        0 <= bytes::be64(view, 8) <= u64::MAX,
{
}

/// The type of a box is four characters from the blank to the tilde, behind its length.
pub proof fn law_types_are_four_printable_characters(view: Seq<u8>)
    requires
        view.len() >= 8,
    ensures
        isobmff::box_type(view) is Some <==> forall|k: int|
            4 <= k < 8 ==> ' ' as u8 <= #[trigger] view[k] <= '~' as u8,
        isobmff::box_type(view) is Some ==> isobmff::box_type(view)->0.len() == 4 && forall|k: int|
            0 <= k < 4 ==> #[trigger] isobmff::box_type(view)->0[k] == view[4 + k],
{
    assert(' ' as u8 == 0x20 && '~' as u8 == 0x7E);
    assert(view[4] == view[4] && view[5] == view[5] && view[6] == view[6] && view[7] == view[7]);
}

} // verus!
