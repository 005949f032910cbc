//! The file formats that can be carved, and how the bytes of each are recognised and sized.

use vstd::prelude::*;
use vstd::string::*;

pub use crate::signatures::audio::AudioStream;
use crate::scanner::segments;
use crate::text;

pub mod audio;
pub mod boxes;
pub mod frames;
pub mod images;
pub mod isobmff;
pub mod magic;
pub mod ooxml;
pub mod table;

pub use crate::signatures::audio::{
    aac_stream_end, chain_size, id3v2_tag_size, mp3_stream_end, walk_audio_frames, ChainStop,
    FrameChain,
};
pub use crate::signatures::isobmff::isobmff_end;
pub use crate::signatures::ooxml::zip_local_file_end;
pub use crate::signatures::table::{all_signatures, signatures_for_categories};

verus! {

/// Kind of content of a file.
#[derive(Debug, Clone, Copy, PartialEq, Eq, Structural)]
pub enum FileCategory {
    Photo,
    Video,
    Audio,
    Document,
}

/// How a category is shown.
pub open spec fn category_label(category: FileCategory) -> Seq<char> {
    match category {
        FileCategory::Photo => "📷 Foto"@,
        FileCategory::Video => "🎬 Video"@,
        FileCategory::Audio => "🎵 Audio"@,
        FileCategory::Document => "📄 Documento"@,
    }
}

impl FileCategory {
    /// How this category is shown.
    pub fn label(self) -> (text: &'static str)
        ensures
            text@ == category_label(self),
    {
        match self {
            FileCategory::Photo => "📷 Foto",
            FileCategory::Video => "🎬 Video",
            FileCategory::Audio => "🎵 Audio",
            FileCategory::Document => "📄 Documento",
        }
    }
}

/// A closer look at the bytes of a candidate, for headers that several formats share or that turn
/// up in any binary data.
#[derive(Debug, Clone, Copy, PartialEq, Eq, Structural)]
pub enum Validator {
    /// A chain of MPEG audio frames.
    Mp3Sync,
    /// A chain of ADTS frames.
    AacAdts,
    /// An `ftyp` box of an image.
    HeicFtyp,
    /// An `ftyp` box of none of the other formats.
    Mp4GenericFtyp,
    /// Coherent BMP headers.
    Bmp,
    /// A TIFF that is not a Canon CR2.
    TiffNotCr2,
    /// A Word document.
    Docx,
    /// An Excel workbook.
    Xlsx,
    /// A PowerPoint presentation.
    Pptx,
}

impl Validator {
    /// What this validator demands of the bytes from the header on.
    pub open spec fn holds(self, data: Seq<u8>) -> bool {
        match self {
            Validator::Mp3Sync => audio::mp3_sync_ok(data),
            Validator::AacAdts => audio::aac_adts_ok(data),
            Validator::HeicFtyp => isobmff::heic_ok(data),
            Validator::Mp4GenericFtyp => isobmff::mp4_ok(data),
            Validator::Bmp => images::bmp_ok(data, images::MAX_BMP_SIZE as int),
            Validator::TiffNotCr2 => !images::has_cr2_mark(data),
            Validator::Docx => ooxml::docx_ok(data),
            Validator::Xlsx => ooxml::xlsx_ok(data),
            Validator::Pptx => ooxml::pptx_ok(data),
        }
    }

    /// Whether the bytes from the header on pass.
    pub fn accepts(self, data: &[u8]) -> (ok: bool)
        ensures
            ok == self.holds(data@),
    {
        match self {
            Validator::Mp3Sync => audio::validate_mp3_sync(data),
            Validator::AacAdts => audio::validate_aac_adts(data),
            Validator::HeicFtyp => isobmff::validate_heic_ftyp(data),
            Validator::Mp4GenericFtyp => isobmff::validate_mp4_generic_ftyp(data),
            Validator::Bmp => images::validate_bmp_default_max(data),
            Validator::TiffNotCr2 => images::validate_tiff_le_not_cr2(data),
            Validator::Docx => ooxml::validate_ooxml_docx(data),
            Validator::Xlsx => ooxml::validate_ooxml_xlsx(data),
            Validator::Pptx => ooxml::validate_ooxml_pptx(data),
        }
    }
}

/// A validator, and the bytes from the header on that it needs at least.
pub type SignatureValidator = (Validator, usize);

/// How the end of a file without footer follows from walking through it.
#[derive(Debug, Clone, Copy, PartialEq, Eq, Structural)]
pub enum StreamEnd {
    Mp3,
    Aac,
    Isobmff,
}

impl StreamEnd {
    /// Size of the file that starts `data`, where the data shows its end.
    pub open spec fn end(self, data: Seq<u8>, at_source_end: bool) -> Option<int> {
        match self {
            StreamEnd::Mp3 => audio::mp3_end(data, at_source_end),
            StreamEnd::Aac => audio::aac_end(data, at_source_end),
            StreamEnd::Isobmff => isobmff::file_end(data, at_source_end),
        }
    }

    /// Size of the file that starts `data`, or `None` where the data does not show its end.
    pub fn size(self, data: &[u8], at_source_end: bool) -> (size: Option<usize>)
        ensures
            size is Some <==> self.end(data@, at_source_end) is Some,
            size matches Some(n) ==> self.end(data@, at_source_end) == Some(n as int) && n
                <= data@.len(),
    {
        match self {
            StreamEnd::Mp3 => audio::mp3_stream_end(data, at_source_end),
            StreamEnd::Aac => audio::aac_stream_end(data, at_source_end),
            StreamEnd::Isobmff => isobmff::isobmff_end(data, at_source_end),
        }
    }
}

/// How a file format is recognised: the bytes that open it, and what is known of its end.
#[derive(Debug, Clone, Copy)]
pub struct FileSignature {
    pub name: &'static str,
    pub extension: &'static str,
    pub category: FileCategory,
    pub header: &'static [u8],
    pub header_offset: usize,
    /// Further bytes that must stand at an offset from the start of the file.
    pub extra_check: Option<(&'static [u8], usize)>,
    pub footer: Option<&'static [u8]>,
    pub max_size: usize,
    pub validator: Option<SignatureValidator>,
    /// Offset from the start of the header, and length, of a little-endian field that holds the
    /// size of the whole file.
    pub size_from_header: Option<(usize, usize)>,
}

/// What a signature says, free of references.
#[verifier::ext_equal]
pub struct SignatureModel {
    pub name: Seq<char>,
    pub extension: Seq<char>,
    pub category: FileCategory,
    pub header: Seq<u8>,
    pub header_offset: int,
    pub extra_check: Option<(Seq<u8>, int)>,
    pub footer: Option<Seq<u8>>,
    pub max_size: int,
    pub validator: Option<SignatureValidator>,
    pub size_from_header: Option<(int, int)>,
}

/// The formats made of boxes, by name.
pub open spec fn is_box_format(name: Seq<char>) -> bool {
    name == "MP4/M4V"@ || name == "HEIC/HEIF"@ || name == "3GP"@ || name == "M4A"@
}

/// The formats made of audio frames, by name.
pub open spec fn audio_format(name: Seq<char>) -> Option<AudioStream> {
    if name == "MP3 (ID3)"@ || name == "MP3 (Sync)"@ {
        Some(AudioStream::Mpeg)
    } else if name == "AAC"@ {
        Some(AudioStream::Adts)
    } else {
        None
    }
}

/// The formats whose end follows from walking through them, by name.
pub open spec fn stream_format(name: Seq<char>) -> Option<StreamEnd> {
    match audio_format(name) {
        Some(AudioStream::Mpeg) => Some(StreamEnd::Mp3),
        Some(AudioStream::Adts) => Some(StreamEnd::Aac),
        None => if is_box_format(name) { Some(StreamEnd::Isobmff) } else { None },
    }
}

impl FileSignature {
    /// This signature as a value of the model.
    pub open spec fn model(self) -> SignatureModel {
        SignatureModel {
            name: self.name@,
            extension: self.extension@,
            category: self.category,
            header: self.header@,
            header_offset: self.header_offset as int,
            extra_check: match self.extra_check {
                Some((data, offset)) => Some((data@, offset as int)),
                None => None,
            },
            footer: match self.footer {
                Some(data) => Some(data@),
                None => None,
            },
            max_size: self.max_size as int,
            validator: self.validator,
            size_from_header: match self.size_from_header {
                Some((offset, len)) => Some((offset as int, len as int)),
                None => None,
            },
        }
    }

    /// A signature that the scanner can work with: a footer is no longer than the header, a size
    /// field fits an integer, and the offsets leave room for what stands there.
    pub open spec fn well_formed(self) -> bool {
        &&& self.footer matches Some(footer) ==> footer@.len() <= self.header@.len()
        &&& self.size_from_header matches Some((offset, len)) ==> len <= 8 && self.header_offset
            + offset + len <= usize::MAX
        &&& self.validator matches Some((validator, needed)) ==> self.header_offset + needed
            <= usize::MAX
        &&& self.header_offset + self.header@.len() <= usize::MAX
        &&& self.extra_check matches Some((data, offset)) ==> offset + data@.len() <= usize::MAX
    }

    /// The largest file of this format, and its header, are small against the offsets of a source.
    pub open spec fn is_limited(self) -> bool {
        &&& self.max_size <= segments::MAX_SOURCE
        &&& self.header_offset + self.header@.len() <= segments::MAX_SOURCE
    }

    /// How the end of this format follows from walking through it, where it does.
    pub fn stream_end(&self) -> (end: Option<StreamEnd>)
        ensures
            end == stream_format(self.name@),
    {
        match self.audio_stream() {
            Some(AudioStream::Mpeg) => Some(StreamEnd::Mp3),
            Some(AudioStream::Adts) => Some(StreamEnd::Aac),
            None => if self.is_isobmff() {
                Some(StreamEnd::Isobmff)
            } else {
                None
            },
        }
    }

    /// Family of audio frames of this format, where it has them.
    pub fn audio_stream(&self) -> (kind: Option<AudioStream>)
        ensures
            kind == audio_format(self.name@),
    {
        if text::same_text(self.name, "MP3 (ID3)") || text::same_text(self.name, "MP3 (Sync)") {
            Some(AudioStream::Mpeg)
        } else if text::same_text(self.name, "AAC") {
            Some(AudioStream::Adts)
        } else {
            None
        }
    }

    /// Whether this format is made of boxes.
    pub fn is_isobmff(&self) -> (yes: bool)
        ensures
            yes == is_box_format(self.name@),
    {
        text::same_text(self.name, "MP4/M4V") || text::same_text(self.name, "HEIC/HEIF")
            || text::same_text(self.name, "3GP") || text::same_text(self.name, "M4A")
    }

    /// How this signature is shown: its name and its extension.
    pub fn label(&self) -> (text: String)
        ensures
            text@ == self.name@ + " (."@ + self.extension@ + ")"@,
    {
        let mut text = text::owned(self.name);
        text.append(" (.");
        text.append(self.extension);
        text.append(")");
        text
    }
}

/// A category is shown with its sign and its word.
pub proof fn law_categories_are_shown_with_their_word()
    ensures
        category_label(FileCategory::Photo) == seq!['📷', ' ', 'F', 'o', 't', 'o'],
        category_label(FileCategory::Video) == seq!['🎬', ' ', 'V', 'i', 'd', 'e', 'o'],
        category_label(FileCategory::Audio) == seq!['🎵', ' ', 'A', 'u', 'd', 'i', 'o'],
        category_label(FileCategory::Document) == seq![
            '📄',
            ' ',
            'D',
            'o',
            'c',
            'u',
            'm',
            'e',
            'n',
            't',
            'o',
        ],
{
    reveal_strlit("📷 Foto");
    reveal_strlit("🎬 Video");
    reveal_strlit("🎵 Audio");
    reveal_strlit("📄 Documento");
}

} // verus!
