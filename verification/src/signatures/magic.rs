//! By which bytes the known formats are recognised, format by format.

use vstd::prelude::*;

use crate::bytes;
use crate::scanner::buffer;
use crate::signatures::{
    self, audio, images, isobmff, ooxml, table, AudioStream, FileCategory, FileSignature, StreamEnd,
};

verus! {

/// These bytes stand in `data` from `at` on.
pub open spec fn stands(data: Seq<u8>, at: int, wanted: Seq<u8>) -> bool {
    0 <= at && at + wanted.len() <= data.len() && data.subrange(at, at + wanted.len()) == wanted
}

/// These letters stand in `data` from `at` on.
pub open spec fn spells(data: Seq<u8>, at: int, word: Seq<char>) -> bool {
    0 <= at && at + word.len() <= data.len() && forall|k: int|
        0 <= k < word.len() ==> data[at + k] as char == #[trigger] word[k]
}

/// The signature is the one of the known format of this name, extension and category, of files of
/// at most so many megabytes.
pub open spec fn is_format(
    signature: FileSignature,
    extension: Seq<char>,
    category: FileCategory,
    megabytes: int,
) -> bool {
    &&& signature.extension@ == extension
    &&& signature.category == category
    &&& signature.max_size == megabytes * 1024 * 1024
}

proof fn lemma_pattern(data: Seq<u8>, at: int, pattern: Seq<u8>)
    ensures
        bytes::pattern_at(data, at, pattern) == stands(data, at, pattern),
{
    if pattern.len() > 0 && 0 <= at && at + pattern.len() <= data.len() {
        bytes::law_patterns_are_told_byte_by_byte(data, at, pattern, 0);
    } else if 0 <= at && at + pattern.len() <= data.len() {
        assert(data.subrange(at, at + pattern.len()) =~= pattern);
    }
}

proof fn lemma_letters(data: Seq<u8>, at: int, pattern: Seq<u8>, word: Seq<char>)
    requires
        pattern.len() == word.len(),
        forall|k: int| 0 <= k < word.len() ==> #[trigger] pattern[k] as char == word[k],
    ensures
        stands(data, at, pattern) == spells(data, at, word),
{
    if 0 <= at && at + word.len() <= data.len() {
        let part = data.subrange(at, at + pattern.len());
        if spells(data, at, word) {
            assert forall|k: int| 0 <= k < part.len() implies part[k] == pattern[k] by {
                assert(data[at + k] as char == word[k]);
                assert(pattern[k] as char == word[k]);
            }
            assert(part =~= pattern);
        }
        if part == pattern {
            assert forall|k: int| 0 <= k < word.len() implies data[at + k] as char
                == #[trigger] word[k] by {
                assert(part[k] == pattern[k]);
            }
        }
    }
}

proof fn lemma_header(signature: FileSignature, data: Seq<u8>, at: int)
    ensures
        buffer::opens_at(signature, data, at) == ({
            let header_at = at + signature.header_offset;
            &&& stands(data, header_at, signature.header@)
            &&& signature.extra_check matches Some((extra, offset)) ==> stands(
                data,
                at + offset,
                extra@,
            )
            &&& signature.validator matches Some((validator, needed)) ==> header_at + needed
                <= data.len() && validator.holds(data.skip(header_at))
        }),
{
    lemma_pattern(data, at + signature.header_offset, signature.header@);
    if let Some((extra, offset)) = signature.extra_check {
        lemma_pattern(data, at + offset, extra@);
    }
}

/// There are 28 known formats: nine of photos, five of videos, ten of audio, four of documents.
pub proof fn law_the_formats_are_known()
    ensures
        table::known_signatures().len() == 28,
        forall|i: int|
            0 <= i < 28 ==> (#[trigger] table::known_signatures()[i]).category == if i < 9 {
                FileCategory::Photo
            } else if i < 14 {
                FileCategory::Video
            } else if i < 24 {
                FileCategory::Audio
            } else {
                FileCategory::Document
            },
{
}

/// A JPEG opens with a marker FF D8 FF and ends with FF D9.
pub proof fn law_jpegs_are_recognised(signature: FileSignature, data: Seq<u8>, at: int)
    requires
        signature.model() == table::known_signatures()[0],
    ensures
        is_format(signature, "jpg"@, FileCategory::Photo, 25),
        buffer::opens_at(signature, data, at) == stands(data, at, seq![0xFFu8, 0xD8, 0xFF]),
        signature.footer matches Some(footer) && footer@ == seq![0xFFu8, 0xD9],
        signature.size_from_header is None,
{
    lemma_header(signature, data, at);
}

/// A PNG opens with its eight bytes and ends with the chunk `IEND` and its checksum.
pub proof fn law_pngs_are_recognised(signature: FileSignature, data: Seq<u8>, at: int)
    requires
        signature.model() == table::known_signatures()[1],
    ensures
        is_format(signature, "png"@, FileCategory::Photo, 30),
        buffer::opens_at(signature, data, at) == (stands(data, at, seq![0x89u8]) && spells(
            data,
            at + 1,
            "PNG"@,
        ) && stands(data, at + 4, seq![0x0Du8, 0x0A, 0x1A, 0x0A])),
        signature.footer matches Some(footer) && footer@ == seq!['I' as u8, 'E' as u8, 'N' as u8, 'D' as u8, 0xAE, 0x42, 0x60, 0x82],
        signature.size_from_header is None,
{
    lemma_header(signature, data, at);
    reveal_strlit("PNG");
    let header = signature.header@;
    lemma_letters(data, at + 1, header.subrange(1, 4), "PNG"@);
    lemma_split(data, at, header, 1);
    lemma_split(data, at + 1, header.skip(1), 3);
    assert(header.take(1) =~= seq![0x89u8]);
    assert(header.skip(1).take(3) =~= header.subrange(1, 4));
    assert(header.skip(1).skip(3) =~= seq![0x0Du8, 0x0A, 0x1A, 0x0A]);
    assert(signature.footer->0@ =~= seq!['I' as u8, 'E' as u8, 'N' as u8, 'D' as u8, 0xAE, 0x42, 0x60, 0x82]);
}

proof fn lemma_split(data: Seq<u8>, at: int, wanted: Seq<u8>, n: int)
    requires
        0 <= n <= wanted.len(),
    ensures
        stands(data, at, wanted) == (stands(data, at, wanted.take(n)) && stands(
            data,
            at + n,
            wanted.skip(n),
        )),
{
    let (head, tail) = (wanted.take(n), wanted.skip(n));
    if 0 <= at && at + wanted.len() <= data.len() {
        let part = data.subrange(at, at + wanted.len());
        if part == wanted {
            assert(data.subrange(at, at + n) =~= head);
            assert(data.subrange(at + n, at + wanted.len()) =~= tail);
        }
        if data.subrange(at, at + n) == head && data.subrange(at + n, at + n + tail.len()) == tail {
            assert forall|k: int| 0 <= k < part.len() implies part[k] == wanted[k] by {
                if k < n {
                    assert(data.subrange(at, at + n)[k] == head[k]);
                } else {
                    assert(data.subrange(at + n, at + n + tail.len())[k - n] == tail[k - n]);
                }
            }
            assert(part =~= wanted);
        }
    }
}

/// A GIF opens with `GIF8` and ends with its trailer.
pub proof fn law_gifs_are_recognised(signature: FileSignature, data: Seq<u8>, at: int)
    requires
        signature.model() == table::known_signatures()[2],
    ensures
        is_format(signature, "gif"@, FileCategory::Photo, 20),
        buffer::opens_at(signature, data, at) == spells(data, at, "GIF8"@),
        signature.footer matches Some(footer) && footer@ == seq![0x00u8, 0x3B],
        signature.size_from_header is None,
{
    lemma_header(signature, data, at);
    reveal_strlit("GIF8");
    lemma_letters(data, at, signature.header@, "GIF8"@);
}

/// A BMP opens with `BM` and coherent headers of at most 50 megabytes, and its size stands in the
/// four bytes behind the letters.
pub proof fn law_bmps_are_recognised(signature: FileSignature, data: Seq<u8>, at: int)
    requires
        signature.model() == table::known_signatures()[3],
        0 <= at,
    ensures
        is_format(signature, "bmp"@, FileCategory::Photo, 50),
        buffer::opens_at(signature, data, at) == (spells(data, at, "BM"@) && at + 34 <= data.len()
            && images::bmp_ok(data.skip(at), 52_428_800)),
        signature.size_from_header == Some((2usize, 4usize)),
        signature.footer is None,
{
    lemma_header(signature, data, at);
    reveal_strlit("BM");
    lemma_letters(data, at, signature.header@, "BM"@);
}

/// WebP, AVI and WAV open with `RIFF`, and with their own four letters behind the size.
pub proof fn law_riff_files_are_recognised(signature: FileSignature, data: Seq<u8>, at: int)
    requires
        0 <= at,
    ensures
        signature.model() == table::known_signatures()[4] ==> {
            &&& is_format(signature, "webp"@, FileCategory::Photo, 25)
            &&& buffer::opens_at(signature, data, at) == (spells(data, at, "RIFF"@) && spells(
                data,
                at + 8,
                "WEBP"@,
            ))
        },
        signature.model() == table::known_signatures()[10] ==> {
            &&& is_format(signature, "avi"@, FileCategory::Video, 2048)
            &&& buffer::opens_at(signature, data, at) == (spells(data, at, "RIFF"@) && spells(
                data,
                at + 8,
                "AVI "@,
            ))
        },
        signature.model() == table::known_signatures()[16] ==> {
            &&& is_format(signature, "wav"@, FileCategory::Audio, 200)
            &&& buffer::opens_at(signature, data, at) == (spells(data, at, "RIFF"@) && spells(
                data,
                at + 8,
                "WAVE"@,
            ))
        },
{
    lemma_header(signature, data, at);
    reveal_strlit("RIFF");
    reveal_strlit("WEBP");
    reveal_strlit("AVI ");
    reveal_strlit("WAVE");
    if signature.model() == table::known_signatures()[4] {
        lemma_letters(data, at, signature.header@, "RIFF"@);
        lemma_letters(data, at + 8, signature.extra_check->Some_0.0@, "WEBP"@);
    }
    if signature.model() == table::known_signatures()[10] {
        lemma_letters(data, at, signature.header@, "RIFF"@);
        lemma_letters(data, at + 8, signature.extra_check->Some_0.0@, "AVI "@);
    }
    if signature.model() == table::known_signatures()[16] {
        lemma_letters(data, at, signature.header@, "RIFF"@);
        lemma_letters(data, at + 8, signature.extra_check->Some_0.0@, "WAVE"@);
    }
}

/// A TIFF opens with `II` or `MM` and the number 42 in that order of bytes, and a Canon CR2 is one
/// of them with `CR` and its version behind. What is a CR2 is not reported as a TIFF too.
pub proof fn law_tiffs_are_recognised(signature: FileSignature, data: Seq<u8>, at: int)
    requires
        0 <= at,
    ensures
        ({
            let little = spells(data, at, "II"@) && stands(data, at + 2, seq![42u8, 0]);
            let big = spells(data, at, "MM"@) && stands(data, at + 2, seq![0u8, 42]);
            let canon = spells(data, at + 8, "CR"@) && stands(data, at + 10, seq![2u8, 0]);
            &&& signature.model() == table::known_signatures()[5] ==> is_format(
                signature,
                "cr2"@,
                FileCategory::Photo,
                100,
            ) && buffer::opens_at(signature, data, at) == (little && canon)
            &&& signature.model() == table::known_signatures()[6] ==> is_format(
                signature,
                "tiff"@,
                FileCategory::Photo,
                100,
            ) && buffer::opens_at(signature, data, at) == (little && at + 12 <= data.len()
                && !canon)
            &&& signature.model() == table::known_signatures()[7] ==> is_format(
                signature,
                "tiff"@,
                FileCategory::Photo,
                100,
            ) && buffer::opens_at(signature, data, at) == big
        }),
{
    lemma_header(signature, data, at);
    reveal_strlit("II");
    reveal_strlit("MM");
    reveal_strlit("CR");
    let header = signature.header@;
    if signature.model() == table::known_signatures()[5] || signature.model()
        == table::known_signatures()[6] {
        lemma_split(data, at, header, 2);
        lemma_letters(data, at, header.take(2), "II"@);
        assert(header.skip(2) =~= seq![42u8, 0]);
    }
    if signature.model() == table::known_signatures()[5] {
        let extra = signature.extra_check->Some_0.0@;
        lemma_split(data, at + 8, extra, 2);
        lemma_letters(data, at + 8, extra.take(2), "CR"@);
        assert(extra.skip(2) =~= seq![2u8, 0]);
    }
    if signature.model() == table::known_signatures()[6] && at + 12 <= data.len() {
        let rest = data.skip(at);
        images::law_canon_files_are_told_by_their_letters(rest);
        assert(rest[8] == data[at + 8] && rest[9] == data[at + 9] && rest[10] == data[at + 10]
            && rest[11] == data[at + 11]);
        if images::has_cr2_mark(rest) {
            assert(data.subrange(at + 10, at + 12) =~= seq![2u8, 0]);
        }
        if stands(data, at + 10, seq![2u8, 0]) {
            assert(data.subrange(at + 10, at + 12)[0] == 2 && data.subrange(at + 10, at + 12)[1] == 0);
        }
        if spells(data, at + 8, "CR"@) {
            assert(data[at + 8 + 0] as char == "CR"@[0] && data[at + 8 + 1] as char == "CR"@[1]);
        }
    }
    if signature.model() == table::known_signatures()[7] {
        lemma_split(data, at, header, 2);
        lemma_letters(data, at, header.take(2), "MM"@);
        assert(header.skip(2) =~= seq![0u8, 42]);
    }
}

/// The files made of boxes have `ftyp` behind four bytes, and are told apart by the brand that
/// follows: images, videos for phones, music, and other videos.
pub proof fn law_box_files_are_recognised(signature: FileSignature, data: Seq<u8>, at: int)
    requires
        0 <= at,
    ensures
        signature.model() == table::known_signatures()[8] ==> {
            &&& is_format(signature, "heic"@, FileCategory::Photo, 50)
            &&& buffer::opens_at(signature, data, at) == (spells(data, at + 4, "ftyp"@) && at + 12
                <= data.len() && isobmff::heic_ok(data.skip(at + 4)))
        },
        signature.model() == table::known_signatures()[9] ==> {
            &&& is_format(signature, "mp4"@, FileCategory::Video, 2048)
            &&& buffer::opens_at(signature, data, at) == (spells(data, at + 4, "ftyp"@) && at + 12
                <= data.len() && isobmff::mp4_ok(data.skip(at + 4)))
        },
        signature.model() == table::known_signatures()[13] ==> {
            &&& is_format(signature, "3gp"@, FileCategory::Video, 500)
            &&& buffer::opens_at(signature, data, at) == spells(data, at + 4, "ftyp3gp"@)
        },
        signature.model() == table::known_signatures()[20] ==> {
            &&& is_format(signature, "m4a"@, FileCategory::Audio, 100)
            &&& buffer::opens_at(signature, data, at) == spells(data, at + 4, "ftypM4A"@)
        },
{
    lemma_header(signature, data, at);
    reveal_strlit("ftyp");
    reveal_strlit("ftyp3gp");
    reveal_strlit("ftypM4A");
    let header = signature.header@;
    if signature.model() == table::known_signatures()[8] || signature.model()
        == table::known_signatures()[9] {
        lemma_letters(data, at + 4, header, "ftyp"@);
    }
    if signature.model() == table::known_signatures()[13] {
        lemma_letters(data, at + 4, header, "ftyp3gp"@);
    }
    if signature.model() == table::known_signatures()[20] {
        lemma_letters(data, at + 4, header, "ftypM4A"@);
    }
}

/// The other videos: Matroska by its four bytes, Flash by `FLV` and its version.
pub proof fn law_other_videos_are_recognised(signature: FileSignature, data: Seq<u8>, at: int)
    requires
        0 <= at,
    ensures
        signature.model() == table::known_signatures()[11] ==> {
            &&& is_format(signature, "mkv"@, FileCategory::Video, 2048)
            &&& buffer::opens_at(signature, data, at) == stands(
                data,
                at,
                seq![0x1Au8, 0x45, 0xDF, 0xA3],
            )
        },
        signature.model() == table::known_signatures()[12] ==> {
            &&& is_format(signature, "flv"@, FileCategory::Video, 1024)
            &&& buffer::opens_at(signature, data, at) == (spells(data, at, "FLV"@) && stands(
                data,
                at + 3,
                seq![1u8],
            ))
        },
{
    lemma_header(signature, data, at);
    reveal_strlit("FLV");
    let header = signature.header@;
    if signature.model() == table::known_signatures()[12] {
        lemma_split(data, at, header, 3);
        lemma_letters(data, at, header.take(3), "FLV"@);
        assert(header.skip(3) =~= seq![1u8]);
    }
}

/// Music made of frames: MP3 by its tag or by a believable chain of frames, AAC by a believable
/// chain of frames.
pub proof fn law_frame_audio_is_recognised(signature: FileSignature, data: Seq<u8>, at: int)
    requires
        0 <= at,
    ensures
        signature.model() == table::known_signatures()[14] ==> {
            &&& is_format(signature, "mp3"@, FileCategory::Audio, 50)
            &&& buffer::opens_at(signature, data, at) == spells(data, at, "ID3"@)
        },
        signature.model() == table::known_signatures()[15] ==> {
            &&& is_format(signature, "mp3"@, FileCategory::Audio, 50)
            &&& buffer::opens_at(signature, data, at) == (stands(data, at, seq![0xFFu8, 0xFB]) && at
                + 3 <= data.len() && audio::mp3_sync_ok(data.skip(at)))
        },
        signature.model() == table::known_signatures()[19] ==> {
            &&& is_format(signature, "aac"@, FileCategory::Audio, 50)
            &&& buffer::opens_at(signature, data, at) == (stands(data, at, seq![0xFFu8, 0xF1]) && at
                + 3 <= data.len() && audio::aac_adts_ok(data.skip(at)))
        },
{
    lemma_header(signature, data, at);
    reveal_strlit("ID3");
    if signature.model() == table::known_signatures()[14] {
        lemma_letters(data, at, signature.header@, "ID3"@);
    }
}

/// Ogg opens with `OggS`, and 28 bytes on the codec names itself: Vorbis behind the number 1, Opus
/// with its head.
pub proof fn law_ogg_files_are_recognised(signature: FileSignature, data: Seq<u8>, at: int)
    requires
        0 <= at,
    ensures
        signature.model() == table::known_signatures()[18] ==> {
            &&& is_format(signature, "ogg"@, FileCategory::Audio, 100)
            &&& buffer::opens_at(signature, data, at) == (spells(data, at, "OggS"@) && stands(
                data,
                at + 28,
                seq![1u8],
            ) && spells(data, at + 29, "vorbis"@))
        },
        signature.model() == table::known_signatures()[23] ==> {
            &&& is_format(signature, "opus"@, FileCategory::Audio, 50)
            &&& buffer::opens_at(signature, data, at) == (spells(data, at, "OggS"@) && spells(
                data,
                at + 28,
                "OpusHead"@,
            ))
        },
{
    lemma_header(signature, data, at);
    reveal_strlit("OggS");
    reveal_strlit("vorbis");
    reveal_strlit("OpusHead");
    if signature.model() == table::known_signatures()[18] {
        let extra = signature.extra_check->Some_0.0@;
        lemma_letters(data, at, signature.header@, "OggS"@);
        lemma_split(data, at + 28, extra, 1);
        assert(extra.take(1) =~= seq![1u8]);
        lemma_letters(data, at + 29, extra.skip(1), "vorbis"@);
    }
    if signature.model() == table::known_signatures()[23] {
        lemma_letters(data, at, signature.header@, "OggS"@);
        lemma_letters(data, at + 28, signature.extra_check->Some_0.0@, "OpusHead"@);
    }
}

/// The other audio: FLAC by `fLaC`, Windows Media by the identifier of its header, voice notes by
/// `#!AMR`.
pub proof fn law_other_audio_is_recognised(signature: FileSignature, data: Seq<u8>, at: int)
    requires
        0 <= at,
    ensures
        signature.model() == table::known_signatures()[17] ==> {
            &&& is_format(signature, "flac"@, FileCategory::Audio, 200)
            &&& buffer::opens_at(signature, data, at) == spells(data, at, "fLaC"@)
        },
        signature.model() == table::known_signatures()[21] ==> {
            &&& is_format(signature, "wma"@, FileCategory::Audio, 100)
            &&& buffer::opens_at(signature, data, at) == stands(
                data,
                at,
                seq![0x30u8, 0x26, 0xB2, 0x75, 0x8E, 0x66, 0xCF, 0x11],
            )
        },
        signature.model() == table::known_signatures()[22] ==> {
            &&& is_format(signature, "amr"@, FileCategory::Audio, 20)
            &&& buffer::opens_at(signature, data, at) == spells(data, at, "#!AMR"@)
        },
{
    lemma_header(signature, data, at);
    reveal_strlit("fLaC");
    reveal_strlit("#!AMR");
    if signature.model() == table::known_signatures()[17] {
        lemma_letters(data, at, signature.header@, "fLaC"@);
    }
    if signature.model() == table::known_signatures()[22] {
        lemma_letters(data, at, signature.header@, "#!AMR"@);
    }
}

/// A PDF opens with `%PDF-` and ends with `%%EOF`. The office documents open as packages do, and
/// are told apart by the part that they hold.
pub proof fn law_documents_are_recognised(signature: FileSignature, data: Seq<u8>, at: int)
    requires
        0 <= at,
    ensures
        signature.model() == table::known_signatures()[24] ==> {
            &&& is_format(signature, "pdf"@, FileCategory::Document, 200)
            &&& buffer::opens_at(signature, data, at) == spells(data, at, "%PDF-"@)
            &&& signature.footer matches Some(footer) && spells(footer@, 0, "%%EOF"@)
                && footer@.len() == 5
        },
        ({
            let package = spells(data, at, "PK"@) && stands(data, at + 2, seq![3u8, 4]) && at + 30
                <= data.len();
            &&& signature.model() == table::known_signatures()[25] ==> is_format(
                signature,
                "docx"@,
                FileCategory::Document,
                100,
            ) && buffer::opens_at(signature, data, at) == (package && ooxml::docx_ok(
                data.skip(at),
            ))
            &&& signature.model() == table::known_signatures()[26] ==> is_format(
                signature,
                "xlsx"@,
                FileCategory::Document,
                100,
            ) && buffer::opens_at(signature, data, at) == (package && ooxml::xlsx_ok(
                data.skip(at),
            ))
            &&& signature.model() == table::known_signatures()[27] ==> is_format(
                signature,
                "pptx"@,
                FileCategory::Document,
                100,
            ) && buffer::opens_at(signature, data, at) == (package && ooxml::pptx_ok(
                data.skip(at),
            ))
        }),
{
    lemma_header(signature, data, at);
    reveal_strlit("%PDF-");
    reveal_strlit("%%EOF");
    reveal_strlit("PK");
    let header = signature.header@;
    if signature.model() == table::known_signatures()[24] {
        lemma_letters(data, at, header, "%PDF-"@);
    }
    if signature.model() == table::known_signatures()[25] || signature.model()
        == table::known_signatures()[26] || signature.model() == table::known_signatures()[27] {
        lemma_split(data, at, header, 2);
        lemma_letters(data, at, header.take(2), "PK"@);
        assert(header.skip(2) =~= seq![3u8, 4]);
    }
}

/// The ends of music and of box files are found by following them: the frames of MP3 and AAC, and
/// the boxes of images, videos, videos for phones and music.
pub proof fn law_streams_are_followed(signature: FileSignature)
    ensures
        signature.model() == table::known_signatures()[14] || signature.model()
            == table::known_signatures()[15] ==> signatures::stream_format(signature.name@) == Some(
            StreamEnd::Mp3,
        ) && signatures::audio_format(signature.name@) == Some(AudioStream::Mpeg),
        signature.model() == table::known_signatures()[19] ==> signatures::stream_format(
            signature.name@,
        ) == Some(StreamEnd::Aac) && signatures::audio_format(signature.name@) == Some(
            AudioStream::Adts,
        ),
        signature.model() == table::known_signatures()[8] || signature.model()
            == table::known_signatures()[9] || signature.model() == table::known_signatures()[13]
            || signature.model() == table::known_signatures()[20] ==> signatures::stream_format(
            signature.name@,
        ) == Some(StreamEnd::Isobmff) && signatures::is_box_format(signature.name@),
{
    reveal_strlit("MP3 (ID3)");
    reveal_strlit("MP3 (Sync)");
    reveal_strlit("AAC");
    reveal_strlit("MP4/M4V");
    reveal_strlit("HEIC/HEIF");
    reveal_strlit("3GP");
    reveal_strlit("M4A");
    assert("MP3 (ID3)"@.len() == 9 && "MP3 (Sync)"@.len() == 10 && "AAC"@.len() == 3
        && "MP4/M4V"@.len() == 7 && "HEIC/HEIF"@.len() == 9 && "3GP"@.len() == 3 && "M4A"@.len()
        == 3);
    assert("MP3 (ID3)"@[0] == 'M' && "HEIC/HEIF"@[0] == 'H' && "AAC"@[0] == 'A' && "3GP"@[0] == '3'
        && "M4A"@[0] == 'M');
}

} // verus!
