//! Files made of boxes (the MP4 family: MP4, HEIC, 3GP, M4A).
//!
//! A file is a chain of boxes, each with its length and a four-letter type. It opens with an
//! `ftyp` box, it is of use only with an index box, and it ends where the chain does.

use vstd::prelude::*;

use crate::bytes;

verus! {

broadcast use vstd::slice::group_slice_axioms;

/// Boxes walked at most once the index was seen. A fragmented video has two boxes per fragment,
/// so this is high.
pub const ISOBMFF_MAX_BOXES: usize = 200_000;

/// Boxes walked at most before the index was seen. This bounds the cost of a false candidate.
pub const ISOBMFF_MAX_BOXES_NO_INDEX: usize = 64;

/// Boxes that a file has at least.
pub const ISOBMFF_MIN_BOXES: usize = 2;

/// Length of the longest believable `ftyp` box. A real one takes tens of bytes.
pub const ISOBMFF_MAX_FTYP: u64 = 4096;

/// What the length field of a box says.
#[derive(Debug, Clone, Copy, PartialEq, Eq, Structural)]
pub enum BoxLen {
    /// The box takes this many bytes, header and all.
    Bytes(u64),
    /// The box runs to the end of the file.
    ToEndOfFile,
    /// No box has this length.
    Invalid,
}

/// A letter that can stand in the type of a box: printable ASCII.
pub open spec fn type_letter(letter: u8) -> bool {
    0x20 <= letter <= 0x7E
}

/// Type of the box whose header starts `view`, or `None` where no box starts there.
pub open spec fn box_type(view: Seq<u8>) -> Option<Seq<u8>> {
    if view.len() >= 8 && type_letter(view[4]) && type_letter(view[5]) && type_letter(view[6])
        && type_letter(view[7]) {
        Some(view.subrange(4, 8))
    } else {
        None
    }
}

/// Length of the box whose header starts `view`. A length of 1 means that a 64-bit length follows
/// the type. A length of 0 means that the box runs to the end of the file, which the first box
/// cannot do.
pub open spec fn box_len(view: Seq<u8>, is_first: bool) -> BoxLen {
    if view.len() < 8 {
        BoxLen::Invalid
    } else if bytes::be32(view, 0) == 0 {
        if is_first { BoxLen::Invalid } else { BoxLen::ToEndOfFile }
    } else if bytes::be32(view, 0) == 1 {
        if view.len() < 16 || bytes::be64(view, 8) < 16 {
            BoxLen::Invalid
        } else {
            BoxLen::Bytes(bytes::be64(view, 8) as u64)
        }
    } else if bytes::be32(view, 0) < 8 {
        BoxLen::Invalid
    } else {
        BoxLen::Bytes(bytes::be32(view, 0) as u64)
    }
}

/// The box type `ftyp`.
pub open spec fn ftyp() -> Seq<u8> {
    seq![0x66u8, 0x74u8, 0x79u8, 0x70u8]
}

/// The box types that carry the index of a file: `moov`, `moof` and `meta`.
pub open spec fn is_index_type(kind: Seq<u8>) -> bool {
    ||| kind == seq![0x6Du8, 0x6Fu8, 0x6Fu8, 0x76u8]
    ||| kind == seq![0x6Du8, 0x6Fu8, 0x6Fu8, 0x66u8]
    ||| kind == seq![0x6Du8, 0x65u8, 0x74u8, 0x61u8]
}

/// How many boxes a walk may take.
pub open spec fn box_cap(has_index: bool) -> int {
    if has_index { ISOBMFF_MAX_BOXES as int } else { ISOBMFF_MAX_BOXES_NO_INDEX as int }
}

/// A chain of boxes is a file where it has enough boxes and an index among them.
pub open spec fn is_whole_file(boxes: int, has_index: bool, pos: int) -> bool {
    boxes >= ISOBMFF_MIN_BOXES && has_index && pos > 0
}

/// The first 16 bytes of `data` from `pos`, or what is left of it.
pub open spec fn box_view(data: Seq<u8>, pos: int) -> Seq<u8> {
    data.subrange(pos, if pos + 16 <= data.len() { pos + 16 } else { data.len() as int })
}

/// Size of the file whose walk has taken `boxes` boxes up to `pos` of `data`, where the data
/// shows its end. `at_source_end` says whether the source ends where the data does.
pub open spec fn boxes_end(
    data: Seq<u8>,
    at_source_end: bool,
    pos: int,
    boxes: int,
    has_index: bool,
) -> Option<int>
    decreases data.len() - pos,
{
    let whole = if is_whole_file(boxes, has_index, pos) { Some(pos) } else { None };
    let view = box_view(data, pos);
    if boxes >= box_cap(has_index) {
        None
    } else if pos >= data.len() {
        if at_source_end { whole } else { None }
    } else if !at_source_end && data.len() - pos < 16 {
        None
    } else if box_type(view) is None {
        whole
    } else if boxes == 0 && box_type(view)->0 != ftyp() {
        None
    } else if boxes > 0 && box_type(view)->0 == ftyp() {
        whole
    } else {
        match box_len(view, boxes == 0) {
            BoxLen::Bytes(len) => if boxes == 0 && len > ISOBMFF_MAX_FTYP {
                None
            } else if pos + len > data.len() {
                None
            } else if len < 8 {
                None
            } else {
                boxes_end(
                    data,
                    at_source_end,
                    pos + len,
                    boxes + 1,
                    has_index || is_index_type(box_type(view)->0),
                )
            },
            BoxLen::ToEndOfFile => None,
            BoxLen::Invalid => whole,
        }
    }
}

/// Size of the file that starts `data`, where the data shows its end.
pub open spec fn file_end(data: Seq<u8>, at_source_end: bool) -> Option<int> {
    boxes_end(data, at_source_end, 0, 0, false)
}

/// A box is at least as long as its header.
pub proof fn law_box_len_covers_header(view: Seq<u8>, is_first: bool)
    ensures
        box_len(view, is_first) matches BoxLen::Bytes(len) ==> len >= 8,
{
}

/// The size reported lies inside the data and covers at least two boxes.
pub proof fn law_file_end_bounds(
    data: Seq<u8>,
    at_source_end: bool,
    pos: int,
    boxes: int,
    has_index: bool,
)
    requires
        0 <= pos <= data.len(),
        8 * boxes <= pos,
    ensures
        boxes_end(data, at_source_end, pos, boxes, has_index) matches Some(size) ==> pos <= size
            <= data.len() && 16 <= size,
    decreases data.len() - pos,
{
    let view = box_view(data, pos);
    if let BoxLen::Bytes(len) = box_len(view, boxes == 0) {
        law_box_len_covers_header(view, boxes == 0);
        if pos + len <= data.len() {
            law_file_end_bounds(
                data,
                at_source_end,
                pos + len,
                boxes + 1,
                has_index || is_index_type(box_type(view)->0),
            );
        }
    }
}

/// Data that does not open with an `ftyp` box describes no file.
pub proof fn law_no_ftyp_no_file(data: Seq<u8>, at_source_end: bool)
    requires
        box_type(box_view(data, 0)) != Some(ftyp()),
    ensures
        file_end(data, at_source_end) is None,
{
}

/// A file whose size is reported holds an index box, so its end is never claimed without one.
pub proof fn law_no_index_no_file(
    data: Seq<u8>,
    at_source_end: bool,
    pos: int,
    boxes: int,
    has_index: bool,
)
    requires
        0 <= pos,
        !has_index,
        forall|p: int|
            pos <= p < data.len() && box_type(#[trigger] box_view(data, p)) is Some
                ==> !is_index_type(box_type(box_view(data, p))->0),
    ensures
        boxes_end(data, at_source_end, pos, boxes, has_index) is None,
    decreases data.len() - pos,
{
    let view = box_view(data, pos);
    if let BoxLen::Bytes(len) = box_len(view, boxes == 0) {
        if pos + len <= data.len() && len >= 8 && pos < data.len() {
            if box_type(view) is Some {
                assert(!is_index_type(box_type(box_view(data, pos))->0));
            }
            law_no_index_no_file(data, at_source_end, pos + len, boxes + 1, false);
        }
    }
}

/// Type of the box whose header starts `view`.
pub fn isobmff_box_type_at_bytes(view: &[u8]) -> (kind: Option<[u8; 4]>)
    ensures
        kind is Some <==> box_type(view@) is Some,
        kind is Some ==> kind->0@ == box_type(view@)->0,
{
    if view.len() < 8 {
        return None;
    }
    let mut i: usize = 4;
    while i < 8
        invariant
            view@.len() >= 8,
            4 <= i <= 8,
            forall|k: int| 4 <= k < i ==> type_letter(#[trigger] view@[k]),
        decreases 8 - i,
    {
        if view[i] < 0x20 || view[i] > 0x7E {
            assert(!type_letter(view@[i as int]));
            return None;
        }
        i = i + 1;
    }
    let kind: [u8; 4] = [view[4], view[5], view[6], view[7]];
    assert(kind@ =~= view@.subrange(4, 8));
    Some(kind)
}

/// Length of the box whose header starts `view`.
pub fn isobmff_box_len_at(view: &[u8], is_first: bool) -> (len: BoxLen)
    ensures
        len == box_len(view@, is_first),
{
    if view.len() < 8 {
        return BoxLen::Invalid;
    }
    let short: u32 = bytes::read_be32(view, 0);
    if short == 0 {
        if is_first {
            BoxLen::Invalid
        } else {
            BoxLen::ToEndOfFile
        }
    } else if short == 1 {
        if view.len() < 16 {
            return BoxLen::Invalid;
        }
        let long: u64 = bytes::read_be64(view, 8);
        if long < 16 {
            BoxLen::Invalid
        } else {
            BoxLen::Bytes(long)
        }
    } else if short < 8 {
        BoxLen::Invalid
    } else {
        BoxLen::Bytes(short as u64)
    }
}

/// Whether a box type is `ftyp`.
pub fn is_ftyp(kind: &[u8; 4]) -> (yes: bool)
    ensures
        yes == (kind@ == ftyp()),
{
    let yes = kind[0] == 0x66 && kind[1] == 0x74 && kind[2] == 0x79 && kind[3] == 0x70;
    proof {
        if yes {
            assert(kind@ =~= ftyp());
        }
    }
    yes
}

/// Whether a box type is one that carries the index of the file.
pub fn is_isobmff_index_box_bytes(kind: &[u8; 4]) -> (yes: bool)
    ensures
        yes == is_index_type(kind@),
{
    let moov = kind[0] == 0x6D && kind[1] == 0x6F && kind[2] == 0x6F && kind[3] == 0x76;
    let moof = kind[0] == 0x6D && kind[1] == 0x6F && kind[2] == 0x6F && kind[3] == 0x66;
    let meta = kind[0] == 0x6D && kind[1] == 0x65 && kind[2] == 0x74 && kind[3] == 0x61;
    proof {
        if moov {
            assert(kind@ =~= seq![0x6Du8, 0x6Fu8, 0x6Fu8, 0x76u8]);
        }
        if moof {
            assert(kind@ =~= seq![0x6Du8, 0x6Fu8, 0x6Fu8, 0x66u8]);
        }
        if meta {
            assert(kind@ =~= seq![0x6Du8, 0x65u8, 0x74u8, 0x61u8]);
        }
    }
    moov || moof || meta
}

/// Size of the box file that starts `data`, or `None` where the data does not show its end.
pub fn isobmff_end(data: &[u8], at_source_end: bool) -> (size: Option<usize>)
    ensures
        size is Some <==> file_end(data@, at_source_end) is Some,
        size matches Some(n) ==> file_end(data@, at_source_end) == Some(n as int) && n
            <= data@.len(),
{
    let mut pos: usize = 0;
    let mut boxes: usize = 0;
    let mut has_index: bool = false;
    loop
        invariant
            pos <= data.len(),
            boxes <= ISOBMFF_MAX_BOXES,
            file_end(data@, at_source_end) == boxes_end(
                data@,
                at_source_end,
                pos as int,
                boxes as int,
                has_index,
            ),
        decreases data@.len() - pos,
    {
        let whole: Option<usize> = if boxes >= ISOBMFF_MIN_BOXES && has_index && pos > 0 {
            Some(pos)
        } else {
            None
        };
        let cap: usize = if has_index { ISOBMFF_MAX_BOXES } else { ISOBMFF_MAX_BOXES_NO_INDEX };
        if boxes >= cap {
            return None;
        }
        if pos >= data.len() {
            return if at_source_end { whole } else { None };
        }
        let left: usize = data.len() - pos;
        if !at_source_end && left < 16 {
            return None;
        }
        let stop: usize = if left >= 16 { pos + 16 } else { data.len() };
        let view = vstd::slice::slice_subrange(data, pos, stop);
        assert(view@ == box_view(data@, pos as int));
        match isobmff_box_type_at_bytes(view) {
            None => {
                return whole;
            },
            Some(kind) => {
                let opens = is_ftyp(&kind);
                if boxes == 0 && !opens {
                    return None;
                }
                if boxes > 0 && opens {
                    return whole;
                }
                match isobmff_box_len_at(view, boxes == 0) {
                    BoxLen::Bytes(len) => {
                        if boxes == 0 && len > ISOBMFF_MAX_FTYP {
                            return None;
                        }
                        if len > left as u64 {
                            return None;
                        }
                        proof {
                            law_box_len_covers_header(view@, boxes == 0);
                        }
                        if is_isobmff_index_box_bytes(&kind) {
                            has_index = true;
                        }
                        pos = pos + len as usize;
                        boxes = boxes + 1;
                    },
                    BoxLen::ToEndOfFile => {
                        return None;
                    },
                    BoxLen::Invalid => {
                        return whole;
                    },
                }
            },
        }
    }
}

/// The brand that follows `ftyp`, taken from data that starts at the letters `ftyp`.
pub open spec fn brand(data: Seq<u8>) -> Seq<u8> {
    data.subrange(4, 8)
}

/// The ten brands of HEIC and HEIF images.
pub open spec fn is_heic_brand_name(name: Seq<u8>) -> bool {
    ||| name == seq![0x68u8, 0x65u8, 0x69u8, 0x63u8]  // heic
    ||| name == seq![0x68u8, 0x65u8, 0x69u8, 0x78u8]  // heix
    ||| name == seq![0x68u8, 0x65u8, 0x76u8, 0x63u8]  // hevc
    ||| name == seq![0x68u8, 0x65u8, 0x76u8, 0x78u8]  // hevx
    ||| name == seq![0x68u8, 0x65u8, 0x69u8, 0x6Du8]  // heim
    ||| name == seq![0x68u8, 0x65u8, 0x69u8, 0x73u8]  // heis
    ||| name == seq![0x68u8, 0x65u8, 0x76u8, 0x6Du8]  // hevm
    ||| name == seq![0x68u8, 0x65u8, 0x76u8, 0x73u8]  // hevs
    ||| name == seq![0x6Du8, 0x69u8, 0x66u8, 0x31u8]  // mif1
    ||| name == seq![0x6Du8, 0x73u8, 0x66u8, 0x31u8]  // msf1
}

/// Data that starts at `ftyp` names an image brand.
pub open spec fn heic_ok(data: Seq<u8>) -> bool {
    data.len() >= 8 && is_heic_brand_name(brand(data))
}

/// Data that starts at `ftyp` names a 3GP or M4A brand, by its first three letters.
pub open spec fn is_3gp_or_m4a(data: Seq<u8>) -> bool {
    data.len() >= 8 && ((data[4] == 0x33 && data[5] == 0x67 && data[6] == 0x70) || (data[4] == 0x4D
        && data[5] == 0x34 && data[6] == 0x41))
}

/// Data that starts at `ftyp` names neither an image nor a 3GP or M4A brand.
pub open spec fn mp4_ok(data: Seq<u8>) -> bool {
    !heic_ok(data) && !is_3gp_or_m4a(data)
}

/// No file is taken both for an image and for a video or audio of this family.
pub proof fn law_brands_exclude_each_other(data: Seq<u8>)
    ensures
        !(heic_ok(data) && mp4_ok(data)),
        !(heic_ok(data) && is_3gp_or_m4a(data)),
        !(mp4_ok(data) && is_3gp_or_m4a(data)),
        heic_ok(data) || mp4_ok(data) || is_3gp_or_m4a(data),
{
    if heic_ok(data) {
        assert(brand(data)[0] == data[4]);
    }
}

/// Whether data that starts at `ftyp` names an image brand.
pub fn is_heic_brand(data: &[u8]) -> (yes: bool)
    ensures
        yes == heic_ok(data@),
{
    if data.len() < 8 {
        return false;
    }
    let (a, b, c, d): (u8, u8, u8, u8) = (data[4], data[5], data[6], data[7]);
    assert(brand(data@) =~= seq![a, b, c, d]);
    let he = a == 0x68 && b == 0x65;
    let hei = he && c == 0x69 && (d == 0x63 || d == 0x78 || d == 0x6D || d == 0x73);
    let hev = he && c == 0x76 && (d == 0x63 || d == 0x78 || d == 0x6D || d == 0x73);
    let mif = a == 0x6D && (b == 0x69 || b == 0x73) && c == 0x66 && d == 0x31;
    proof {
        let name = seq![a, b, c, d];
        if hei || hev || mif {
            assert(is_heic_brand_name(name));
        } else if is_heic_brand_name(name) {
            assert(name[0] == a && name[1] == b && name[2] == c && name[3] == d);
        }
    }
    hei || hev || mif
}

/// Accepts an `ftyp` box of an image.
pub fn validate_heic_ftyp(data: &[u8]) -> (ok: bool)
    ensures
        ok == heic_ok(data@),
{
    is_heic_brand(data)
}

/// Whether data that starts at `ftyp` names a 3GP or M4A brand.
pub fn is_3gp_or_m4a_brand(data: &[u8]) -> (yes: bool)
    ensures
        yes == is_3gp_or_m4a(data@),
{
    if data.len() < 8 {
        return false;
    }
    (data[4] == 0x33 && data[5] == 0x67 && data[6] == 0x70) || (data[4] == 0x4D && data[5] == 0x34
        && data[6] == 0x41)
}

/// Accepts an `ftyp` box that is neither of an image nor of a 3GP or M4A file, so that none of
/// those is reported a second time as a video.
pub fn validate_mp4_generic_ftyp(data: &[u8]) -> (ok: bool)
    ensures
        ok == mp4_ok(data@),
{
    !is_heic_brand(data) && !is_3gp_or_m4a_brand(data)
}

} // verus!
