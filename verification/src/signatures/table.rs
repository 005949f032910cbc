//! The table of known formats.

use vstd::prelude::*;

use crate::signatures::{FileCategory, FileSignature, SignatureModel, Validator};

verus! {

broadcast use vstd::slice::group_slice_axioms;

/// So many megabytes.
pub open spec fn mb(count: int) -> int {
    count * 1_048_576
}

/// A format known by its header alone.
pub open spec fn by_header(
    name: Seq<char>,
    extension: Seq<char>,
    category: FileCategory,
    header: Seq<u8>,
    max_size: int,
) -> SignatureModel {
    SignatureModel {
        name: name,
        extension: extension,
        category: category,
        header: header,
        header_offset: 0,
        extra_check: None,
        footer: None,
        max_size: max_size,
        validator: None,
        size_from_header: None,
    }
}

/// A format that ends with a footer.
pub open spec fn with_footer(base: SignatureModel, footer: Seq<u8>) -> SignatureModel {
    SignatureModel { footer: Some(footer), ..base }
}

/// A format with further bytes at an offset.
pub open spec fn with_extra(base: SignatureModel, extra: Seq<u8>, offset: int) -> SignatureModel {
    SignatureModel { extra_check: Some((extra, offset)), ..base }
}

/// A format that takes a closer look.
pub open spec fn with_validator(
    base: SignatureModel,
    validator: Validator,
    needed: usize,
) -> SignatureModel {
    SignatureModel { validator: Some((validator, needed)), ..base }
}

/// A format whose header stands at an offset from the start of the file.
pub open spec fn at_offset(base: SignatureModel, offset: int) -> SignatureModel {
    SignatureModel { header_offset: offset, ..base }
}

/// The header `RIFF`.
pub open spec fn riff() -> Seq<u8> {
    seq![0x52u8, 0x49u8, 0x46u8, 0x46u8]
}

/// The header `OggS`.
pub open spec fn oggs() -> Seq<u8> {
    seq![0x4Fu8, 0x67u8, 0x67u8, 0x53u8]
}

/// The header `ftyp`.
pub open spec fn ftyp() -> Seq<u8> {
    seq![0x66u8, 0x74u8, 0x79u8, 0x70u8]
}

/// The header of a little-endian TIFF.
pub open spec fn tiff_le() -> Seq<u8> {
    seq![0x49u8, 0x49u8, 0x2Au8, 0x00u8]
}

/// The header of an entry of a ZIP.
pub open spec fn zip_entry() -> Seq<u8> {
    seq![0x50u8, 0x4Bu8, 0x03u8, 0x04u8]
}

/// The known photo formats.
pub open spec fn photo_signatures() -> Seq<SignatureModel> {
    let photo = FileCategory::Photo;
    seq![
        with_footer(
            by_header("JPEG"@, "jpg"@, photo, seq![0xFFu8, 0xD8u8, 0xFFu8], mb(25)),
            seq![0xFFu8, 0xD9u8],
        ),
        with_footer(
            by_header(
                "PNG"@,
                "png"@,
                photo,
                seq![0x89u8, 0x50u8, 0x4Eu8, 0x47u8, 0x0Du8, 0x0Au8, 0x1Au8, 0x0Au8],
                mb(30),
            ),
            seq![0x49u8, 0x45u8, 0x4Eu8, 0x44u8, 0xAEu8, 0x42u8, 0x60u8, 0x82u8],
        ),
        with_footer(
            by_header("GIF"@, "gif"@, photo, seq![0x47u8, 0x49u8, 0x46u8, 0x38u8], mb(20)),
            seq![0x00u8, 0x3Bu8],
        ),
        SignatureModel {
            size_from_header: Some((2, 4)),
            ..with_validator(
                by_header("BMP"@, "bmp"@, photo, seq![0x42u8, 0x4Du8], mb(50)),
                Validator::Bmp,
                34,
            )
        },
        with_extra(
            by_header("WebP"@, "webp"@, photo, riff(), mb(25)),
            seq![0x57u8, 0x45u8, 0x42u8, 0x50u8],
            8,
        ),
        with_extra(
            by_header("CR2 (Canon RAW)"@, "cr2"@, photo, tiff_le(), mb(100)),
            seq![0x43u8, 0x52u8, 0x02u8, 0x00u8],
            8,
        ),
        with_validator(
            by_header("TIFF"@, "tiff"@, photo, tiff_le(), mb(100)),
            Validator::TiffNotCr2,
            12,
        ),
        by_header(
            "TIFF (big-endian)"@,
            "tiff"@,
            photo,
            seq![0x4Du8, 0x4Du8, 0x00u8, 0x2Au8],
            mb(100),
        ),
        at_offset(
            with_validator(
                by_header("HEIC/HEIF"@, "heic"@, photo, ftyp(), mb(50)),
                Validator::HeicFtyp,
                8,
            ),
            4,
        ),
    ]
}

/// The known video formats.
pub open spec fn video_signatures() -> Seq<SignatureModel> {
    let video = FileCategory::Video;
    seq![
        at_offset(
            with_validator(
                by_header("MP4/M4V"@, "mp4"@, video, ftyp(), mb(2048)),
                Validator::Mp4GenericFtyp,
                8,
            ),
            4,
        ),
        with_extra(
            by_header("AVI"@, "avi"@, video, riff(), mb(2048)),
            seq![0x41u8, 0x56u8, 0x49u8, 0x20u8],
            8,
        ),
        by_header("MKV"@, "mkv"@, video, seq![0x1Au8, 0x45u8, 0xDFu8, 0xA3u8], mb(2048)),
        by_header("FLV"@, "flv"@, video, seq![0x46u8, 0x4Cu8, 0x56u8, 0x01u8], mb(1024)),
        at_offset(
            by_header(
                "3GP"@,
                "3gp"@,
                video,
                seq![0x66u8, 0x74u8, 0x79u8, 0x70u8, 0x33u8, 0x67u8, 0x70u8],
                mb(500),
            ),
            4,
        ),
    ]
}

/// The known audio formats.
pub open spec fn audio_signatures() -> Seq<SignatureModel> {
    let audio = FileCategory::Audio;
    seq![
        by_header("MP3 (ID3)"@, "mp3"@, audio, seq![0x49u8, 0x44u8, 0x33u8], mb(50)),
        with_validator(
            by_header("MP3 (Sync)"@, "mp3"@, audio, seq![0xFFu8, 0xFBu8], mb(50)),
            Validator::Mp3Sync,
            3,
        ),
        with_extra(
            by_header("WAV"@, "wav"@, audio, riff(), mb(200)),
            seq![0x57u8, 0x41u8, 0x56u8, 0x45u8],
            8,
        ),
        by_header("FLAC"@, "flac"@, audio, seq![0x66u8, 0x4Cu8, 0x61u8, 0x43u8], mb(200)),
        with_extra(
            by_header("OGG Vorbis"@, "ogg"@, audio, oggs(), mb(100)),
            seq![0x01u8, 0x76u8, 0x6Fu8, 0x72u8, 0x62u8, 0x69u8, 0x73u8],
            28,
        ),
        with_validator(
            by_header("AAC"@, "aac"@, audio, seq![0xFFu8, 0xF1u8], mb(50)),
            Validator::AacAdts,
            3,
        ),
        at_offset(
            by_header(
                "M4A"@,
                "m4a"@,
                audio,
                seq![0x66u8, 0x74u8, 0x79u8, 0x70u8, 0x4Du8, 0x34u8, 0x41u8],
                mb(100),
            ),
            4,
        ),
        by_header(
            "WMA"@,
            "wma"@,
            audio,
            seq![0x30u8, 0x26u8, 0xB2u8, 0x75u8, 0x8Eu8, 0x66u8, 0xCFu8, 0x11u8],
            mb(100),
        ),
        by_header(
            "AMR (Nota de voz)"@,
            "amr"@,
            audio,
            seq![0x23u8, 0x21u8, 0x41u8, 0x4Du8, 0x52u8],
            mb(20),
        ),
        with_extra(
            by_header("OPUS"@, "opus"@, audio, oggs(), mb(50)),
            seq![0x4Fu8, 0x70u8, 0x75u8, 0x73u8, 0x48u8, 0x65u8, 0x61u8, 0x64u8],
            28,
        ),
    ]
}

/// The known document formats.
pub open spec fn document_signatures() -> Seq<SignatureModel> {
    let document = FileCategory::Document;
    seq![
        with_footer(
            by_header(
                "PDF"@,
                "pdf"@,
                document,
                seq![0x25u8, 0x50u8, 0x44u8, 0x46u8, 0x2Du8],
                mb(200),
            ),
            seq![0x25u8, 0x25u8, 0x45u8, 0x4Fu8, 0x46u8],
        ),
        with_validator(
            by_header("Word (DOCX)"@, "docx"@, document, zip_entry(), mb(100)),
            Validator::Docx,
            30,
        ),
        with_validator(
            by_header("Excel (XLSX)"@, "xlsx"@, document, zip_entry(), mb(100)),
            Validator::Xlsx,
            30,
        ),
        with_validator(
            by_header("PowerPoint (PPTX)"@, "pptx"@, document, zip_entry(), mb(100)),
            Validator::Pptx,
            30,
        ),
    ]
}

/// All known formats, photos first, then videos, audio and documents.
pub open spec fn known_signatures() -> Seq<SignatureModel> {
    photo_signatures() + video_signatures() + audio_signatures() + document_signatures()
}

/// What a list of signatures says.
pub open spec fn models(list: Seq<FileSignature>) -> Seq<SignatureModel> {
    list.map_values(|one: FileSignature| one.model())
}

/// Every signature of the list can be worked with.
pub open spec fn all_well_formed(list: Seq<FileSignature>) -> bool {
    forall|i: int| 0 <= i < list.len() ==> (#[trigger] list[i]).well_formed()
}

/// Every format of the list is limited: its largest file and its header are small against the
/// offsets of a source.
pub open spec fn all_limited(list: Seq<FileSignature>) -> bool {
    forall|i: int| 0 <= i < list.len() ==> (#[trigger] list[i]).is_limited()
}

proof fn lemma_known_files_are_limited(list: Seq<FileSignature>)
    requires
        models(list) == known_signatures(),
    ensures
        all_limited(list),
{
    assert forall|i: int| 0 <= i < list.len() implies (#[trigger] list[i]).is_limited() by {
        assert(models(list)[i] == list[i].model());
        law_known_files_are_limited(i);
    }
}

/// No known format has files of more than 2 GB, or a header that reaches beyond its first bytes.
pub proof fn law_known_files_are_limited(i: int)
    requires
        0 <= i < known_signatures().len(),
    ensures
        known_signatures()[i].max_size <= 2_147_483_648,
        known_signatures()[i].header_offset + known_signatures()[i].header.len() <= 16,
{
}

fn riff_header() -> (header: &'static [u8])
    ensures
        header@ == riff(),
{
    let header: &'static [u8] = &[0x52, 0x49, 0x46, 0x46];
    assert(header@ =~= riff());
    header
}

fn ftyp_header() -> (header: &'static [u8])
    ensures
        header@ == ftyp(),
{
    let header: &'static [u8] = &[0x66, 0x74, 0x79, 0x70];
    assert(header@ =~= ftyp());
    header
}

fn signature(
    name: &'static str,
    extension: &'static str,
    category: FileCategory,
    header: &'static [u8],
    max_size: usize,
) -> (made: FileSignature)
    requires
        header@.len() <= 64,
    ensures
        made.model() == by_header(name@, extension@, category, header@, max_size as int),
        made.well_formed(),
{
    FileSignature {
        name,
        extension,
        category,
        header,
        header_offset: 0,
        extra_check: None,
        footer: None,
        max_size,
        validator: None,
        size_from_header: None,
    }
}

fn photos() -> (list: Vec<FileSignature>)
    ensures
        models(list@) == photo_signatures(),
        all_well_formed(list@),
{
    let photo = FileCategory::Photo;
    let jpeg = FileSignature {
        footer: Some(&[0xFF, 0xD9]),
        ..signature("JPEG", "jpg", photo, &[0xFF, 0xD8, 0xFF], 26_214_400)
    };
    assert(jpeg.model() =~~= photo_signatures()[0]);
    let png = FileSignature {
        footer: Some(&[0x49, 0x45, 0x4E, 0x44, 0xAE, 0x42, 0x60, 0x82]),
        ..signature(
            "PNG",
            "png",
            photo,
            &[0x89, 0x50, 0x4E, 0x47, 0x0D, 0x0A, 0x1A, 0x0A],
            31_457_280,
        )
    };
    assert(png.model() =~~= photo_signatures()[1]);
    let gif = FileSignature {
        footer: Some(&[0x00, 0x3B]),
        ..signature("GIF", "gif", photo, &[0x47, 0x49, 0x46, 0x38], 20_971_520)
    };
    assert(gif.model() =~~= photo_signatures()[2]);
    let bmp = FileSignature {
        validator: Some((Validator::Bmp, 34)),
        size_from_header: Some((2, 4)),
        ..signature("BMP", "bmp", photo, &[0x42, 0x4D], 52_428_800)
    };
    assert(bmp.model() =~~= photo_signatures()[3]);
    let webp = FileSignature {
        extra_check: Some((&[0x57, 0x45, 0x42, 0x50], 8)),
        ..signature("WebP", "webp", photo, riff_header(), 26_214_400)
    };
    assert(webp.model() =~~= photo_signatures()[4]);
    let cr2 = FileSignature {
        extra_check: Some((&[0x43, 0x52, 0x02, 0x00], 8)),
        ..signature("CR2 (Canon RAW)", "cr2", photo, &[0x49, 0x49, 0x2A, 0x00], 104_857_600)
    };
    assert(cr2.model() =~~= photo_signatures()[5]);
    let tiff = FileSignature {
        validator: Some((Validator::TiffNotCr2, 12)),
        ..signature("TIFF", "tiff", photo, &[0x49, 0x49, 0x2A, 0x00], 104_857_600)
    };
    assert(tiff.model() =~~= photo_signatures()[6]);
    let tiff_be = signature(
        "TIFF (big-endian)",
        "tiff",
        photo,
        &[0x4D, 0x4D, 0x00, 0x2A],
        104_857_600,
    );
    assert(tiff_be.model() =~~= photo_signatures()[7]);
    let heic = FileSignature {
        header_offset: 4,
        validator: Some((Validator::HeicFtyp, 8)),
        ..signature("HEIC/HEIF", "heic", photo, ftyp_header(), 52_428_800)
    };
    assert(heic.model() =~~= photo_signatures()[8]);
    let list = vec![jpeg, png, gif, bmp, webp, cr2, tiff, tiff_be, heic];
    assert(models(list@) =~= photo_signatures());
    list
}

fn videos() -> (list: Vec<FileSignature>)
    ensures
        models(list@) == video_signatures(),
        all_well_formed(list@),
{
    let video = FileCategory::Video;
    let mp4 = FileSignature {
        header_offset: 4,
        validator: Some((Validator::Mp4GenericFtyp, 8)),
        ..signature("MP4/M4V", "mp4", video, ftyp_header(), 2_147_483_648)
    };
    assert(mp4.model() =~~= video_signatures()[0]);
    let avi = FileSignature {
        extra_check: Some((&[0x41, 0x56, 0x49, 0x20], 8)),
        ..signature("AVI", "avi", video, riff_header(), 2_147_483_648)
    };
    assert(avi.model() =~~= video_signatures()[1]);
    let mkv = signature("MKV", "mkv", video, &[0x1A, 0x45, 0xDF, 0xA3], 2_147_483_648);
    assert(mkv.model() =~~= video_signatures()[2]);
    let flv = signature("FLV", "flv", video, &[0x46, 0x4C, 0x56, 0x01], 1_073_741_824);
    assert(flv.model() =~~= video_signatures()[3]);
    let gp3 = FileSignature {
        header_offset: 4,
        ..signature(
            "3GP",
            "3gp",
            video,
            &[0x66, 0x74, 0x79, 0x70, 0x33, 0x67, 0x70],
            524_288_000,
        )
    };
    assert(gp3.model() =~~= video_signatures()[4]);
    let list = vec![mp4, avi, mkv, flv, gp3];
    assert(models(list@) =~= video_signatures());
    list
}

fn audios() -> (list: Vec<FileSignature>)
    ensures
        models(list@) == audio_signatures(),
        all_well_formed(list@),
{
    let audio = FileCategory::Audio;
    let mp3_id3 = signature("MP3 (ID3)", "mp3", audio, &[0x49, 0x44, 0x33], 52_428_800);
    assert(mp3_id3.model() =~~= audio_signatures()[0]);
    let mp3_sync = FileSignature {
        validator: Some((Validator::Mp3Sync, 3)),
        ..signature("MP3 (Sync)", "mp3", audio, &[0xFF, 0xFB], 52_428_800)
    };
    assert(mp3_sync.model() =~~= audio_signatures()[1]);
    let wav = FileSignature {
        extra_check: Some((&[0x57, 0x41, 0x56, 0x45], 8)),
        ..signature("WAV", "wav", audio, riff_header(), 209_715_200)
    };
    assert(wav.model() =~~= audio_signatures()[2]);
    let flac = signature("FLAC", "flac", audio, &[0x66, 0x4C, 0x61, 0x43], 209_715_200);
    assert(flac.model() =~~= audio_signatures()[3]);
    let ogg = FileSignature {
        extra_check: Some((&[0x01, 0x76, 0x6F, 0x72, 0x62, 0x69, 0x73], 28)),
        ..signature("OGG Vorbis", "ogg", audio, &[0x4F, 0x67, 0x67, 0x53], 104_857_600)
    };
    assert(ogg.model() =~~= audio_signatures()[4]);
    let aac = FileSignature {
        validator: Some((Validator::AacAdts, 3)),
        ..signature("AAC", "aac", audio, &[0xFF, 0xF1], 52_428_800)
    };
    assert(aac.model() =~~= audio_signatures()[5]);
    let m4a = FileSignature {
        header_offset: 4,
        ..signature(
            "M4A",
            "m4a",
            audio,
            &[0x66, 0x74, 0x79, 0x70, 0x4D, 0x34, 0x41],
            104_857_600,
        )
    };
    assert(m4a.model() =~~= audio_signatures()[6]);
    let wma = signature(
        "WMA",
        "wma",
        audio,
        &[0x30, 0x26, 0xB2, 0x75, 0x8E, 0x66, 0xCF, 0x11],
        104_857_600,
    );
    assert(wma.model() =~~= audio_signatures()[7]);
    let amr = signature(
        "AMR (Nota de voz)",
        "amr",
        audio,
        &[0x23, 0x21, 0x41, 0x4D, 0x52],
        20_971_520,
    );
    assert(amr.model() =~~= audio_signatures()[8]);
    let opus = FileSignature {
        extra_check: Some((&[0x4F, 0x70, 0x75, 0x73, 0x48, 0x65, 0x61, 0x64], 28)),
        ..signature("OPUS", "opus", audio, &[0x4F, 0x67, 0x67, 0x53], 52_428_800)
    };
    assert(opus.model() =~~= audio_signatures()[9]);
    let list = vec![mp3_id3, mp3_sync, wav, flac, ogg, aac, m4a, wma, amr, opus];
    assert(models(list@) =~= audio_signatures());
    list
}

fn documents() -> (list: Vec<FileSignature>)
    ensures
        models(list@) == document_signatures(),
        all_well_formed(list@),
{
    let document = FileCategory::Document;
    let pdf = FileSignature {
        footer: Some(&[0x25, 0x25, 0x45, 0x4F, 0x46]),
        ..signature("PDF", "pdf", document, &[0x25, 0x50, 0x44, 0x46, 0x2D], 209_715_200)
    };
    assert(pdf.model() =~~= document_signatures()[0]);
    let docx = FileSignature {
        validator: Some((Validator::Docx, 30)),
        ..signature("Word (DOCX)", "docx", document, &[0x50, 0x4B, 0x03, 0x04], 104_857_600)
    };
    assert(docx.model() =~~= document_signatures()[1]);
    let xlsx = FileSignature {
        validator: Some((Validator::Xlsx, 30)),
        ..signature("Excel (XLSX)", "xlsx", document, &[0x50, 0x4B, 0x03, 0x04], 104_857_600)
    };
    assert(xlsx.model() =~~= document_signatures()[2]);
    let pptx = FileSignature {
        validator: Some((Validator::Pptx, 30)),
        ..signature("PowerPoint (PPTX)", "pptx", document, &[0x50, 0x4B, 0x03, 0x04], 104_857_600)
    };
    assert(pptx.model() =~~= document_signatures()[3]);
    let list = vec![pdf, docx, xlsx, pptx];
    assert(models(list@) =~= document_signatures());
    list
}

/// All known formats.
pub fn all_signatures() -> (list: Vec<FileSignature>)
    ensures
        models(list@) == known_signatures(),
        all_well_formed(list@),
        all_limited(list@),
{
    let mut list = photos();
    let mut more = videos();
    list.append(&mut more);
    let mut more = audios();
    list.append(&mut more);
    let mut more = documents();
    list.append(&mut more);
    assert(models(list@) =~= known_signatures());
    proof {
        lemma_known_files_are_limited(list@);
    }
    list
}

/// The known formats of the given categories, in the order of the table.
pub fn signatures_for_categories(categories: &[FileCategory]) -> (list: Vec<FileSignature>)
    ensures
        models(list@) == known_signatures().filter(
            |one: SignatureModel| categories@.contains(one.category),
        ),
        all_well_formed(list@),
        all_limited(list@),
{
    let wanted = all_signatures();
    let ghost keep = |one: SignatureModel| categories@.contains(one.category);
    let mut list: Vec<FileSignature> = Vec::new();
    let mut i: usize = 0;
    while i < wanted.len()
        invariant
            i <= wanted@.len(),
            models(wanted@) == known_signatures(),
            all_well_formed(wanted@),
            all_well_formed(list@),
            all_limited(wanted@),
            all_limited(list@),
            keep == (|one: SignatureModel| categories@.contains(one.category)),
            models(list@) == known_signatures().take(i as int).filter(keep),
        decreases wanted@.len() - i,
    {
        let one = wanted[i];
        proof {
            assert(known_signatures()[i as int] == models(wanted@)[i as int]);
            assert(known_signatures().take(i as int + 1).drop_last() =~= known_signatures().take(
                i as int,
            ));
            reveal(Seq::filter);
        }
        let ghost before = list@;
        if has_category(categories, one.category) {
            list.push(one);
            assert(models(list@) =~= models(before).push(one.model()));
        }
        i = i + 1;
    }
    assert(known_signatures().take(known_signatures().len() as int) =~= known_signatures());
    list
}

fn has_category(categories: &[FileCategory], wanted: FileCategory) -> (yes: bool)
    ensures
        yes == categories@.contains(wanted),
{
    let mut i: usize = 0;
    while i < categories.len()
        invariant
            i <= categories@.len(),
            forall|k: int| 0 <= k < i ==> categories@[k] != wanted,
        decreases categories@.len() - i,
    {
        if categories[i] == wanted {
            return true;
        }
        i = i + 1;
    }
    false
}

/// No known footer is longer than the header of its format, so a footer found behind a header
/// always ends behind it.
pub proof fn law_headers_cover_footers(i: int)
    requires
        0 <= i < known_signatures().len(),
    ensures
        known_signatures()[i].header.len() > 0,
        known_signatures()[i].footer matches Some(footer) ==> 0 < footer.len()
            <= known_signatures()[i].header.len(),
{
}

/// Formats that share a header are told apart: the marks of WebP, AVI and WAV exclude each other,
/// and so do those of Ogg Vorbis and Opus.
pub proof fn law_shared_headers_are_told_apart(data: Seq<u8>, at: int)
    ensures
        ({
            let webp = crate::bytes::pattern_at(data, at, photo_signatures()[4].extra_check->Some_0.0);
            let avi = crate::bytes::pattern_at(data, at, video_signatures()[1].extra_check->Some_0.0);
            let wav = crate::bytes::pattern_at(data, at, audio_signatures()[2].extra_check->Some_0.0);
            let vorbis = crate::bytes::pattern_at(data, at, audio_signatures()[4].extra_check->Some_0.0);
            let opus = crate::bytes::pattern_at(data, at, audio_signatures()[9].extra_check->Some_0.0);
            !(webp && avi) && !(webp && wav) && !(avi && wav) && !(vorbis && opus)
        }),
{
}

} // verus!
