//! Still images whose short headers need a closer look: BMP, and TIFF against Canon CR2.

use vstd::prelude::*;

use crate::bytes;

verus! {

broadcast use vstd::slice::group_slice_axioms;

/// Largest BMP that is believed.
pub const MAX_BMP_SIZE: usize = 52_428_800;

/// Bytes of a BMP that its validation reads.
pub const BMP_HEADER_LEN: usize = 34;

/// Signed 32-bit little-endian integer at `at`.
pub open spec fn signed32(data: Seq<u8>, at: int) -> int {
    if bytes::le32(data, at) >= 0x8000_0000 {
        bytes::le32(data, at) - 0x1_0000_0000
    } else {
        bytes::le32(data, at)
    }
}

/// The lengths that the second header of a BMP is defined with.
pub open spec fn is_dib_length(length: int) -> bool {
    length == 12 || length == 40 || length == 52 || length == 56 || length == 64 || length == 108
        || length == 124
}

/// The bits per pixel that a BMP is defined with.
pub open spec fn is_pixel_depth(bits: int) -> bool {
    bits == 1 || bits == 4 || bits == 8 || bits == 16 || bits == 24 || bits == 32
}

/// Bytes that the pixels of an uncompressed image take: each row is filled up to four bytes.
pub open spec fn pixel_bytes(width: int, height: int, bits: int) -> int {
    let rows = if height < 0 { -height } else { height };
    ((width * bits + 31) / 32) * 4 * rows
}

/// The shape that the second header of a BMP declares.
pub struct BmpShape {
    pub width: int,
    pub height: int,
    pub planes: int,
    pub bits: int,
    pub compressed: bool,
}

/// Shape declared by the second header, which is shorter in the oldest variant.
pub open spec fn bmp_shape(data: Seq<u8>) -> BmpShape {
    if bytes::le32(data, 14) == 12 {
        BmpShape {
            width: bytes::le16(data, 18),
            height: bytes::le16(data, 20),
            planes: bytes::le16(data, 22),
            bits: bytes::le16(data, 24),
            compressed: false,
        }
    } else {
        BmpShape {
            width: signed32(data, 18),
            height: signed32(data, 22),
            planes: bytes::le16(data, 26),
            bits: bytes::le16(data, 28),
            compressed: bytes::le32(data, 30) != 0,
        }
    }
}

/// The headers of a BMP of at most `max_size` bytes agree with each other: the declared size
/// holds the headers and the pixels, and no field has an undefined value. A negative height is
/// legal: the rows are then stored from the top.
pub open spec fn bmp_ok(data: Seq<u8>, max_size: int) -> bool {
    let file_size = bytes::le32(data, 2);
    let pixels_at = bytes::le32(data, 10);
    let shape = bmp_shape(data);
    &&& data.len() >= BMP_HEADER_LEN
    &&& 14 < file_size <= max_size
    &&& 14 < pixels_at <= file_size
    &&& bytes::le32(data, 6) == 0
    &&& is_dib_length(bytes::le32(data, 14))
    &&& shape.planes == 1
    &&& is_pixel_depth(shape.bits)
    &&& shape.width > 0
    &&& shape.height != 0
    &&& shape.compressed || pixels_at + pixel_bytes(shape.width, shape.height, shape.bits)
        <= file_size
}

/// The mark `CR\x02\x00` that tells a Canon CR2 from other TIFF files.
pub open spec fn has_cr2_mark(data: Seq<u8>) -> bool {
    data.len() >= 12 && data[8] == 0x43 && data[9] == 0x52 && data[10] == 0x02 && data[11] == 0x00
}

fn read_signed32(data: &[u8], at: usize) -> (value: i64)
    requires
        at + 4 <= data.len(),
    ensures
        value == signed32(data@, at as int),
{
    let raw: u32 = bytes::read_le32(data, at);
    if raw >= 0x8000_0000 {
        raw as i64 - 0x1_0000_0000
    } else {
        raw as i64
    }
}

fn pixels_fit(
    width: i64,
    height: i64,
    bits: u16,
    pixels_at: u32,
    file_size: u32,
) -> (fit: bool)
    requires
        0 < width <= 0x8000_0000,
        -0x8000_0000 <= height <= 0x8000_0000,
        bits <= 32,
    ensures
        fit == (pixels_at + pixel_bytes(width as int, height as int, bits as int) <= file_size),
{
    let rows: u128 = if height < 0 { (-height) as u128 } else { height as u128 };
    assert(0 < width * bits + 31 <= 0x10_0000_0100) by (nonlinear_arith)
        requires
            0 < width <= 0x8000_0000,
            0 <= bits <= 32,
    ;
    let row: u128 = (width as u128 * bits as u128 + 31) / 32 * 4;
    assert(row == (width * bits + 31) / 32 * 4);
    assert(0 <= row * rows <= 0x1000_0000_0000_0000_0000) by (nonlinear_arith)
        requires
            0 <= row <= 0x2_0000_0100,
            0 <= rows <= 0x8000_0000,
    ;
    pixels_at as u128 + row * rows <= file_size as u128
}

/// Whether the headers at the start of `data` are those of a BMP of at most `max_bmp_size` bytes.
pub fn validate_bmp_header(data: &[u8], max_bmp_size: usize) -> (ok: bool)
    ensures
        ok == bmp_ok(data@, max_bmp_size as int),
{
    if data.len() < BMP_HEADER_LEN {
        return false;
    }
    let file_size: u32 = bytes::read_le32(data, 2);
    let pixels_at: u32 = bytes::read_le32(data, 10);
    if file_size <= 14 || file_size as u64 > max_bmp_size as u64 {
        return false;
    }
    if pixels_at <= 14 || pixels_at > file_size {
        return false;
    }
    if bytes::read_le32(data, 6) != 0 {
        return false;
    }
    let dib: u32 = bytes::read_le32(data, 14);
    if !(dib == 12 || dib == 40 || dib == 52 || dib == 56 || dib == 64 || dib == 108 || dib
        == 124) {
        return false;
    }
    let old = dib == 12;
    let width: i64 = if old { bytes::read_le16(data, 18) as i64 } else { read_signed32(data, 18) };
    let height: i64 = if old { bytes::read_le16(data, 20) as i64 } else { read_signed32(data, 22) };
    let planes: u16 = if old { bytes::read_le16(data, 22) } else { bytes::read_le16(data, 26) };
    let bits: u16 = if old { bytes::read_le16(data, 24) } else { bytes::read_le16(data, 28) };
    let compressed = !old && bytes::read_le32(data, 30) != 0;
    if planes != 1 || width <= 0 || height == 0 {
        return false;
    }
    if !(bits == 1 || bits == 4 || bits == 8 || bits == 16 || bits == 24 || bits == 32) {
        return false;
    }
    compressed || pixels_fit(width, height, bits, pixels_at, file_size)
}

/// Accepts the headers of a BMP no larger than the largest that is believed.
pub fn validate_bmp_default_max(data: &[u8]) -> (ok: bool)
    ensures
        ok == bmp_ok(data@, MAX_BMP_SIZE as int),
{
    validate_bmp_header(data, MAX_BMP_SIZE)
}

/// Whether a TIFF header is followed by the mark of a Canon CR2.
pub fn is_cr2_marker(data: &[u8]) -> (yes: bool)
    ensures
        yes == has_cr2_mark(data@),
{
    data.len() >= 12 && data[8] == 0x43 && data[9] == 0x52 && data[10] == 0x02 && data[11] == 0x00
}

/// Accepts a TIFF that is not a CR2, so that a CR2 is not reported twice.
pub fn validate_tiff_le_not_cr2(data: &[u8]) -> (ok: bool)
    ensures
        ok == !has_cr2_mark(data@),
{
    !is_cr2_marker(data)
}

/// Rows of `row` bytes hold the pixels of a row, filled up to four bytes and no further.
pub open spec fn is_row_of(row: int, width: int, bits: int) -> bool {
    row % 4 == 0 && 8 * row - 32 < width * bits <= 8 * row
}

/// The headers that a writer makes are accepted: of every defined length and depth, with any width,
/// rows from the bottom or from the top, and a size that is that of the headers and the rows. One
/// byte less is refused, and so is a field that no writer makes.
pub proof fn law_written_bmps_are_accepted(
    data: Seq<u8>,
    max_size: int,
    width: int,
    height: int,
    bits: int,
    row: int,
)
    requires
        data.len() >= 34,
        bytes::le32(data, 6) == 0,
        bytes::le32(data, 10) >= 14 + bytes::le32(data, 14),
        ({
            let length = bytes::le32(data, 14);
            length == 40 || length == 52 || length == 56 || length == 64 || length == 108 || length
                == 124
        }),
        0 < width < 0x8000_0000,
        -0x8000_0000 <= height < 0x8000_0000,
        height != 0,
        bytes::le32(data, 18) == width,
        bytes::le32(data, 22) == if height < 0 { height + 0x1_0000_0000 } else { height },
        bytes::le16(data, 26) == 1,
        bytes::le16(data, 28) == bits,
        bits == 1 || bits == 4 || bits == 8 || bits == 16 || bits == 24 || bits == 32,
        bytes::le32(data, 30) == 0,
        is_row_of(row, width, bits),
        bytes::le32(data, 2) <= max_size,
    ensures
        ({
            let rows = if height < 0 { -height } else { height };
            bmp_ok(data, max_size) == (bytes::le32(data, 10) + row * rows <= bytes::le32(data, 2))
        }),
{
    let rows = if height < 0 { -height } else { height };
    lemma_rows(width, height, bits, row);
    assert(row * rows >= 0) by (nonlinear_arith)
        requires
            row >= 0,
            rows >= 0,
    ;
}

/// The oldest headers are accepted in the same way.
pub proof fn law_old_bmps_are_accepted(data: Seq<u8>, max_size: int, row: int)
    requires
        data.len() >= 34,
        bytes::le32(data, 6) == 0,
        bytes::le32(data, 10) >= 26,
        bytes::le32(data, 14) == 12,
        bytes::le16(data, 18) > 0,
        bytes::le16(data, 20) > 0,
        bytes::le16(data, 22) == 1,
        ({
            let bits = bytes::le16(data, 24);
            bits == 1 || bits == 4 || bits == 8 || bits == 16 || bits == 24 || bits == 32
        }),
        is_row_of(row, bytes::le16(data, 18), bytes::le16(data, 24)),
        bytes::le32(data, 2) <= max_size,
    ensures
        bmp_ok(data, max_size) == (bytes::le32(data, 10) + row * bytes::le16(data, 20)
            <= bytes::le32(data, 2)),
{
    lemma_rows(bytes::le16(data, 18), bytes::le16(data, 20), bytes::le16(data, 24), row);
    assert(row * bytes::le16(data, 20) >= 0) by (nonlinear_arith)
        requires
            row >= 0,
            bytes::le16(data, 20) >= 0,
    ;
}

proof fn lemma_rows(width: int, height: int, bits: int, row: int)
    requires
        0 < width,
        0 < bits,
        is_row_of(row, width, bits),
    ensures
        row >= 0,
        pixel_bytes(width, height, bits) == row * (if height < 0 { -height } else { height }),
{
    let total = width * bits;
    assert(total > 0) by (nonlinear_arith)
        requires
            width > 0,
            bits > 0,
            total == width * bits,
    ;
    assert(((total + 31) / 32) * 4 == row);
}

/// What a writer never makes is refused: too few bytes, a size that is none or too large, pixels
/// inside the first header or behind the file, a mark in the reserved bytes, another number of
/// planes, and a second header or a depth that is not defined.
pub proof fn law_incoherent_bmps_are_refused(data: Seq<u8>, max_size: int)
    requires
        ({
            let length = bytes::le32(data, 14);
            let old = length == 12;
            let bits = bytes::le16(data, if old { 24 } else { 28 });
            ||| data.len() < 34
            ||| bytes::le32(data, 2) <= 14
            ||| bytes::le32(data, 2) > max_size
            ||| bytes::le32(data, 10) <= 14
            ||| bytes::le32(data, 10) > bytes::le32(data, 2)
            ||| bytes::le32(data, 6) != 0
            ||| bytes::le16(data, if old { 22 } else { 26 }) != 1
            ||| !(length == 12 || length == 40 || length == 52 || length == 56 || length == 64
                || length == 108 || length == 124)
            ||| !(bits == 1 || bits == 4 || bits == 8 || bits == 16 || bits == 24 || bits == 32)
            ||| !old && (bytes::le32(data, 18) == 0 || bytes::le32(data, 18) >= 0x8000_0000
                || bytes::le32(data, 22) == 0)
            ||| old && (bytes::le16(data, 18) == 0 || bytes::le16(data, 20) == 0)
        }),
    ensures
        !bmp_ok(data, max_size),
{
}

/// A compressed picture takes what it takes: its rows are not held against its size.
pub proof fn law_compressed_bmps_are_accepted(data: Seq<u8>, max_size: int)
    requires
        data.len() >= 34,
        14 < bytes::le32(data, 10) <= bytes::le32(data, 2) <= max_size,
        bytes::le32(data, 6) == 0,
        bytes::le32(data, 14) == 40,
        0 < bytes::le32(data, 18) < 0x8000_0000,
        bytes::le32(data, 22) != 0,
        bytes::le16(data, 26) == 1,
        bytes::le16(data, 28) == 4 || bytes::le16(data, 28) == 8 || bytes::le16(data, 28) == 24,
        bytes::le32(data, 30) != 0,
    ensures
        bmp_ok(data, max_size),
{
}

/// A TIFF is taken for a Canon CR2 exactly by the letters `CR` and the version 2.0 behind its header.
pub proof fn law_canon_files_are_told_by_their_letters(data: Seq<u8>)
    ensures
        has_cr2_mark(data) == (data.len() >= 12 && data[8] as char == 'C' && data[9] as char == 'R'
            && data[10] == 2 && data[11] == 0),
{
}

} // verus!
