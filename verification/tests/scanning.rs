//! Scans of sources held in memory, driven as the program drives scans of disks.

use recupe_ghost::recovery::{folder_for, FileCopy, Recovery};
use recupe_ghost::scanner::aligned::{plan_aligned_read, useful_bytes, ISOBMFF_HEADER_READ, SECTOR};
use recupe_ghost::scanner::footer_search::{FooterSearch, SearchNext, SearchStep};
use recupe_ghost::scanner::refine::{audio_walk, box_walk, AudioPass, AudioTurn};
use recupe_ghost::scanner::run::{plan_segments, ScanRun, ScanWork};
use recupe_ghost::scanner::segment_scan::{SegmentNext, SegmentResult, SegmentScan, BUFFER_SIZE};
use recupe_ghost::scanner::segments::{estimate_scan, Estimate};
use recupe_ghost::scanner::walk_audio::{AudioWalk, WalkNext};
use recupe_ghost::scanner::walk_boxes::BoxWalk;
use recupe_ghost::scanner::ends::conclude;
use recupe_ghost::scanner::{
    calculate_segments, max_signature_reach, select_thread_count, suppress_contained, EndResult,
    scan_progress_bytes, scan_progress_files, FoundFile, Integrity, ScanProgress, ScanResult,
    ScanState, Segment,
};
use recupe_ghost::signatures::{
    all_signatures, isobmff_end, signatures_for_categories, walk_audio_frames, AudioStream,
    ChainStop, FileCategory, FileSignature,
};

/// The bytes of a source from `offset` on; `None` where there is no source to read.
fn read_at(source: Option<&[u8]>, offset: u64, want: usize) -> Option<Vec<u8>> {
    let data = source?;
    let from = (offset as usize).min(data.len());
    let to = (from + want).min(data.len());
    Some(data[from..to].to_vec())
}

fn scan_segment(
    source: &[u8],
    segment: &Segment,
    sigs: &[FileSignature],
    reach: usize,
    progress: &mut ScanProgress,
    state: &mut ScanState,
    cancelled: bool,
) -> SegmentResult {
    let mut scan = SegmentScan::new(*segment, source.len() as u64, reach);
    while let SegmentNext::Read { offset, want } = scan.next(cancelled) {
        let data = read_at(Some(source), offset, want).unwrap();
        if data.is_empty() {
            break;
        }
        let found = scan.take_block(&data, sigs);
        progress.add_bytes(data.len() as u64, state);
        progress.add_files(found, state);
    }
    scan.finish()
}

fn search_footer(source: &[u8], mut search: FooterSearch, cancelled: bool) -> Option<u64> {
    loop {
        match search.next(cancelled) {
            SearchNext::GivenUp => return None,
            SearchNext::Read { offset, want } => {
                let data = read_at(Some(source), offset, want);
                match search.feed(data.as_deref()) {
                    SearchStep::Going => {}
                    SearchStep::GivenUp => return None,
                    SearchStep::Found(size) => return Some(size),
                }
            }
        }
    }
}

fn walk_audio(source: Option<&[u8]>, mut walk: AudioWalk, cancelled: bool) -> EndResult {
    loop {
        match walk.next(cancelled) {
            WalkNext::Done(result) => return result,
            WalkNext::Read { offset, want } => {
                let data = read_at(source, offset, want);
                if let Some(result) = walk.feed(data.as_deref()) {
                    return result;
                }
            }
        }
    }
}

fn walk_boxes(source: &[u8], mut walk: BoxWalk, cancelled: bool) -> EndResult {
    loop {
        match walk.next(cancelled) {
            WalkNext::Done(result) => return result,
            WalkNext::Read { offset, want } => {
                let data = read_at(Some(source), offset, want);
                if let Some(result) = walk.feed(data.as_deref()) {
                    return result;
                }
            }
        }
    }
}

fn refine_audio_streams(source: Option<&[u8]>, files: &mut Vec<FoundFile>, cancelled: bool) {
    let mut pass = AudioPass::new(files);
    loop {
        match pass.turn(files, cancelled) {
            AudioTurn::Finished => return,
            AudioTurn::Passed => {}
            AudioTurn::Walk(i) => {
                let walk = audio_walk(&files[i]).unwrap();
                let result = walk_audio(source, walk, cancelled);
                pass.note(files, i, result);
            }
        }
    }
}

fn refine_isobmff_sizes(source: &[u8], files: &mut Vec<FoundFile>, cancelled: bool) {
    for i in 0..files.len() {
        if cancelled {
            return;
        }
        if let Some(walk) = box_walk(&files[i], source.len() as u64) {
            let result = walk_boxes(source, walk, cancelled);
            files[i] = conclude(files[i], result);
        }
    }
}

fn scan_with_threads(source: &[u8], sigs: &[FileSignature], threads: usize) -> ScanResult {
    let size = source.len() as u64;
    let reach = max_signature_reach(sigs);
    let mut progress = ScanProgress::new();
    let mut state = ScanState::idle();
    state.begin();
    let mut parts = Vec::new();
    for segment in plan_segments(size, threads, reach) {
        parts.push(scan_segment(
            source,
            &segment,
            sigs,
            reach,
            &mut progress,
            &mut state,
            false,
        ));
    }
    settle(source, ScanRun::new(size, threads, parts), &progress, &state)
}

fn settle(
    source: &[u8],
    mut run: ScanRun,
    progress: &ScanProgress,
    state: &ScanState,
) -> ScanResult {
    let size = source.len() as u64;
    loop {
        match run.step(false) {
            ScanWork::Passed => {}
            ScanWork::Footer(i, search) => {
                let end = search_footer(source, search, false);
                run.note_footer(i, end);
            }
            ScanWork::Audio(i, walk) => {
                let end = walk_audio(Some(source), walk, false);
                run.note_audio(i, end);
            }
            ScanWork::Measure => run.note_size(Some(size)),
            ScanWork::Boxes(i, walk) => {
                let end = walk_boxes(source, walk, false);
                run.note_boxes(i, end);
            }
            ScanWork::Finished => break,
        }
    }
    run.finish(progress.bytes, state.cancel_requested)
}

fn scan(source: &[u8], sigs: &[FileSignature]) -> ScanResult {
    let threads = select_thread_count("imagen.img", source.len() as u64, 4);
    scan_with_threads(source, sigs, threads)
}

fn scan_bytes(data: &[u8], sigs: &[FileSignature]) -> Vec<FoundFile> {
    scan(data, sigs).found_files
}

fn scan_bytes_as_docs(data: &[u8]) -> Vec<FoundFile> {
    scan_bytes(data, &signatures_for_categories(&[FileCategory::Document]))
}

fn signature(extension: &str) -> FileSignature {
    all_signatures()
        .into_iter()
        .find(|s| s.extension == extension)
        .unwrap()
}

fn audio_sigs() -> Vec<FileSignature> {
    signatures_for_categories(&[FileCategory::Audio])
}

fn mp3_sync() -> FileSignature {
    audio_sigs()
        .into_iter()
        .find(|s| s.name == "MP3 (Sync)")
        .unwrap()
}

fn found_with(sig: FileSignature, footer_found: bool) -> FoundFile {
    FoundFile {
        signature: sig,
        offset: 0,
        size: 1000,
        index: 1,
        footer_found,
        end_unknown: false,
    }
}

fn extensions_at(result: &ScanResult, offset: u64) -> Vec<&'static str> {
    result
        .found_files
        .iter()
        .filter(|f| f.offset == offset)
        .map(|f| f.signature.extension)
        .collect()
}

#[test]
fn test_suppress_contained_drops_embedded_but_not_inside_false_positive() {
    let sig = signature("jpg");
    let ff = |offset: u64, size: u64, footer_found: bool, index: usize| FoundFile {
        signature: sig.clone(),
        offset,
        size,
        index,
        footer_found,
        end_unknown: false,
    };
    let zip = signature("docx");
    let fz = |offset: u64, size: u64, footer_found: bool, index: usize| FoundFile {
        signature: zip.clone(),
        offset,
        size,
        index,
        footer_found,
        end_unknown: false,
    };

    // A container whose end follows from its structure takes in even files with footers.
    let mut v = vec![
        fz(0, 1000, true, 1),
        ff(100, 200, true, 2),
        ff(5000, 300, true, 3),
    ];
    suppress_contained(&mut v);
    let offsets: Vec<u64> = v.iter().map(|f| f.offset).collect();
    assert_eq!(offsets, vec![0, 5000]);

    // A two-byte footer may be found by chance, so it takes in no file with an end of its own.
    let mut weak = vec![
        ff(0, 100_000, true, 1),
        ff(10_000, 5_000, true, 2),
        ff(50_000, 5_000, true, 3),
    ];
    suppress_contained(&mut weak);
    assert_eq!(weak.len(), 3);

    // A file carved to its largest size takes in nothing.
    let mut v2 = vec![ff(0, 100_000, false, 1), ff(500, 800, true, 2)];
    suppress_contained(&mut v2);
    assert_eq!(v2.len(), 2);
}

fn u16le(v: &mut Vec<u8>, x: u16) {
    v.extend_from_slice(&x.to_le_bytes());
}

fn u32le(v: &mut Vec<u8>, x: u32) {
    v.extend_from_slice(&x.to_le_bytes());
}

/// A ZIP archive with stored entries, a central directory and its end record.
fn build_zip(entries: &[(&str, &[u8])]) -> Vec<u8> {
    let mut out = Vec::new();
    let mut local_offsets = Vec::new();
    for (name, data) in entries {
        local_offsets.push(out.len() as u32);
        u32le(&mut out, 0x0403_4b50);
        u16le(&mut out, 20);
        u16le(&mut out, 0);
        u16le(&mut out, 0);
        u16le(&mut out, 0);
        u16le(&mut out, 0);
        u32le(&mut out, 0);
        u32le(&mut out, data.len() as u32);
        u32le(&mut out, data.len() as u32);
        u16le(&mut out, name.len() as u16);
        u16le(&mut out, 0);
        out.extend_from_slice(name.as_bytes());
        out.extend_from_slice(data);
    }
    let cd_offset = out.len() as u32;
    for (i, (name, data)) in entries.iter().enumerate() {
        u32le(&mut out, 0x0201_4b50);
        u16le(&mut out, 20);
        u16le(&mut out, 20);
        u16le(&mut out, 0);
        u16le(&mut out, 0);
        u16le(&mut out, 0);
        u16le(&mut out, 0);
        u32le(&mut out, 0);
        u32le(&mut out, data.len() as u32);
        u32le(&mut out, data.len() as u32);
        u16le(&mut out, name.len() as u16);
        u16le(&mut out, 0);
        u16le(&mut out, 0);
        u16le(&mut out, 0);
        u16le(&mut out, 0);
        u32le(&mut out, 0);
        u32le(&mut out, local_offsets[i]);
        out.extend_from_slice(name.as_bytes());
    }
    let cd_size = out.len() as u32 - cd_offset;
    u32le(&mut out, 0x0605_4b50);
    u16le(&mut out, 0);
    u16le(&mut out, 0);
    u16le(&mut out, entries.len() as u16);
    u16le(&mut out, entries.len() as u16);
    u32le(&mut out, cd_size);
    u32le(&mut out, cd_offset);
    u16le(&mut out, 0);
    out
}

/// A small office document: `first` is its first entry, `main` its main part.
fn build_ooxml(first: &str, main: &str) -> Vec<u8> {
    let pad = vec![b'x'; 700];
    build_zip(&[
        (first, b"<Types/>"),
        ("[Content_Types].xml", b"<Types/>"),
        (main, &pad),
    ])
}

#[test]
fn test_ooxml_docx_xlsx_pptx_detected_sized_and_not_cross_matched() {
    let docx = build_ooxml("[Content_Types].xml", "word/document.xml");
    let xlsx = build_ooxml("[Content_Types].xml", "xl/workbook.xml");
    let pptx = build_ooxml("[Content_Types].xml", "ppt/presentation.xml");
    let mut img = Vec::new();
    let mut offsets = Vec::new();
    for f in [&docx, &xlsx, &pptx] {
        img.extend_from_slice(&[0xAA; 4096]);
        offsets.push(img.len() as u64);
        img.extend_from_slice(f);
    }
    img.extend_from_slice(&[0xAA; 4096]);

    let found = scan_bytes_as_docs(&img);
    assert_eq!(found.len(), 3, "exactly three, none twice");
    for (i, (ext, data)) in [("docx", &docx), ("xlsx", &xlsx), ("pptx", &pptx)]
        .iter()
        .enumerate()
    {
        let f = found.iter().find(|f| f.offset == offsets[i]).unwrap();
        assert_eq!(f.signature.extension, *ext);
        assert_eq!(f.size, data.len() as u64);
        assert!(f.footer_found);
        assert_eq!(f.integrity(), Integrity::Intact);
    }
}

#[test]
fn test_ooxml_libreoffice_style_rels_first_detected() {
    let docx = build_ooxml("_rels/.rels", "word/document.xml");
    let mut img = vec![0xAA; 4096];
    img.extend_from_slice(&docx);
    img.extend_from_slice(&[0xAA; 4096]);
    let found = scan_bytes_as_docs(&img);
    assert_eq!(found.len(), 1);
    assert_eq!(found[0].signature.extension, "docx");
    assert_eq!(found[0].size, docx.len() as u64);
}

#[test]
fn test_ooxml_libreoffice_calc_workbook_rels_first_detected() {
    let xlsx = build_ooxml("xl/_rels/workbook.xml.rels", "xl/workbook.xml");
    let mut img = vec![0xAA; 4096];
    img.extend_from_slice(&xlsx);
    img.extend_from_slice(&[0xAA; 4096]);
    let found = scan_bytes_as_docs(&img);
    assert_eq!(found.len(), 1);
    assert_eq!(found[0].signature.extension, "xlsx");
    assert_eq!(found[0].size, xlsx.len() as u64);
}

#[test]
fn test_generic_zip_not_detected_as_office() {
    let readme = vec![b'r'; 600];
    let zip = build_zip(&[("readme.txt", &readme), ("data/blob.bin", &[0u8; 300])]);
    assert!(zip.len() > 512);
    let mut img = vec![0xAA; 4096];
    img.extend_from_slice(&zip);
    img.extend_from_slice(&[0xAA; 4096]);
    let found = scan_bytes_as_docs(&img);
    assert!(found.is_empty());
}

#[test]
fn test_integrity_footer_format_found_is_intact() {
    let jpeg = signature("jpg");
    assert!(jpeg.footer.is_some());
    assert_eq!(found_with(jpeg, true).integrity(), Integrity::Intact);
}

#[test]
fn test_integrity_footer_format_not_found_is_suspect() {
    let jpeg = signature("jpg");
    assert_eq!(found_with(jpeg, false).integrity(), Integrity::Suspect);
}

#[test]
fn test_integrity_size_from_header_format_is_intact() {
    let bmp = signature("bmp");
    assert!(bmp.footer.is_none() && bmp.size_from_header.is_some());
    assert_eq!(found_with(bmp, true).integrity(), Integrity::Intact);
}

#[test]
fn test_integrity_no_end_marker_format_is_unverifiable() {
    let no_end = all_signatures()
        .into_iter()
        .find(|s| s.footer.is_none() && s.size_from_header.is_none())
        .expect("a signature with neither");
    assert_eq!(
        found_with(no_end, false).integrity(),
        Integrity::Unverifiable
    );
}

#[test]
fn test_integrity_display_rank_orders_intact_first_suspect_last() {
    assert!(Integrity::Intact.display_rank() < Integrity::Unverifiable.display_rank());
    assert!(Integrity::Unverifiable.display_rank() < Integrity::Suspect.display_rank());
}

/// An image of 512 KB with ten files in it, and where they are.
fn create_test_image() -> (Vec<u8>, Vec<(&'static str, u64)>) {
    let mut data = vec![0u8; 512 * 1024];
    let mut expected: Vec<(&'static str, u64)> = Vec::new();

    let pos = 1024usize;
    data[pos..pos + 3].copy_from_slice(&[0xFF, 0xD8, 0xFF]);
    for i in 3..2048 {
        data[pos + i] = ((i * 7) % 256) as u8;
    }
    data[pos + 2048..pos + 2050].copy_from_slice(&[0xFF, 0xD9]);
    expected.push(("jpg", pos as u64));

    let pos = 8192;
    data[pos..pos + 8].copy_from_slice(&[0x89, 0x50, 0x4E, 0x47, 0x0D, 0x0A, 0x1A, 0x0A]);
    for i in 8..3000 {
        data[pos + i] = ((i * 13) % 256) as u8;
    }
    data[pos + 3000..pos + 3008].copy_from_slice(&[0x49, 0x45, 0x4E, 0x44, 0xAE, 0x42, 0x60, 0x82]);
    expected.push(("png", pos as u64));

    let pos = 16384;
    data[pos..pos + 4].copy_from_slice(b"RIFF");
    data[pos + 4..pos + 8].copy_from_slice(&1500u32.to_le_bytes());
    data[pos + 8..pos + 12].copy_from_slice(b"WEBP");
    for i in 12..1512 {
        data[pos + i] = ((i * 3) % 256) as u8;
    }
    expected.push(("webp", pos as u64));

    let pos = 24576;
    data[pos..pos + 4].copy_from_slice(b"RIFF");
    data[pos + 4..pos + 8].copy_from_slice(&2000u32.to_le_bytes());
    data[pos + 8..pos + 12].copy_from_slice(b"AVI ");
    for i in 12..2012 {
        data[pos + i] = ((i * 11) % 256) as u8;
    }
    expected.push(("avi", pos as u64));

    let pos = 32768;
    data[pos..pos + 4].copy_from_slice(b"RIFF");
    data[pos + 4..pos + 8].copy_from_slice(&1000u32.to_le_bytes());
    data[pos + 8..pos + 12].copy_from_slice(b"WAVE");
    for i in 12..1012 {
        data[pos + i] = ((i * 17) % 256) as u8;
    }
    expected.push(("wav", pos as u64));

    let pos = 40960;
    data[pos..pos + 3].copy_from_slice(&[0x49, 0x44, 0x33]);
    for i in 3..800 {
        data[pos + i] = ((i * 23) % 256) as u8;
    }
    expected.push(("mp3", pos as u64));

    let pos = 49152;
    data[pos..pos + 4].copy_from_slice(b"OggS");
    data[pos + 4] = 0;
    data[pos + 5] = 0x02;
    data[pos + 26] = 1;
    data[pos + 27] = 30;
    data[pos + 28..pos + 35].copy_from_slice(&[0x01, 0x76, 0x6F, 0x72, 0x62, 0x69, 0x73]);
    for i in 35..800 {
        data[pos + i] = ((i * 29) % 256) as u8;
    }
    expected.push(("ogg", pos as u64));

    let pos = 57344;
    data[pos..pos + 4].copy_from_slice(b"OggS");
    data[pos + 4] = 0;
    data[pos + 5] = 0x02;
    data[pos + 26] = 1;
    data[pos + 27] = 19;
    data[pos + 28..pos + 36].copy_from_slice(&[0x4F, 0x70, 0x75, 0x73, 0x48, 0x65, 0x61, 0x64]);
    for i in 36..800 {
        data[pos + i] = ((i * 31) % 256) as u8;
    }
    expected.push(("opus", pos as u64));

    let pos = 65536;
    data[pos..pos + 6].copy_from_slice(b"GIF89a");
    for i in 6..1500 {
        data[pos + i] = ((i * 37) % 256) as u8;
    }
    data[pos + 1500..pos + 1502].copy_from_slice(&[0x00, 0x3B]);
    expected.push(("gif", pos as u64));

    let pos = 73728;
    data[pos..pos + 4].copy_from_slice(&[0x66, 0x4C, 0x61, 0x43]);
    for i in 4..900 {
        data[pos + i] = ((i * 41) % 256) as u8;
    }
    expected.push(("flac", pos as u64));

    (data, expected)
}

fn media_sigs() -> Vec<FileSignature> {
    signatures_for_categories(&[
        FileCategory::Photo,
        FileCategory::Video,
        FileCategory::Audio,
    ])
}

#[test]
fn test_scan_detects_all_signatures() {
    let (data, expected) = create_test_image();
    let result = scan(&data, &media_sigs());
    for (ext, offset) in &expected {
        let found = result
            .found_files
            .iter()
            .any(|f| f.signature.extension == *ext && f.offset == *offset);
        assert!(found, "no {} at 0x{:X}", ext, offset);
    }
}

#[test]
fn test_riff_disambiguation() {
    let (data, _) = create_test_image();
    let result = scan(&data, &media_sigs());
    assert_eq!(extensions_at(&result, 16384), vec!["webp"]);
    assert_eq!(extensions_at(&result, 24576), vec!["avi"]);
    assert_eq!(extensions_at(&result, 32768), vec!["wav"]);
}

#[test]
fn test_ogg_opus_disambiguation() {
    let (data, _) = create_test_image();
    let result = scan(&data, &audio_sigs());
    assert_eq!(extensions_at(&result, 49152), vec!["ogg"]);
    assert_eq!(extensions_at(&result, 57344), vec!["opus"]);
}

#[test]
fn test_jpeg_footer_detection() {
    let (data, _) = create_test_image();
    let sigs = signatures_for_categories(&[FileCategory::Photo]);
    let result = scan(&data, &sigs);
    let jpeg = result
        .found_files
        .iter()
        .find(|f| f.signature.extension == "jpg")
        .expect("no JPEG");
    assert_eq!(jpeg.size, 2050);
}

#[test]
fn test_segment_calculation() {
    let overlap = 36u64;
    let cases: Vec<(u64, &[usize])> = vec![
        (100 * 1024 * 1024, &[2, 3, 4, 5, 7, 8]),
        (100 * 1024 * 1024 + 1, &[2, 3, 5, 7]),
        (17 * 1024 * 1024 + 12345, &[2, 3]),
    ];
    for (file_size, thread_counts) in &cases {
        for &num_threads in *thread_counts {
            let segments = calculate_segments(*file_size, num_threads, overlap);
            assert_eq!(segments.len(), num_threads);
            assert_eq!(segments[0].claim_start, 0);
            assert_eq!(segments[num_threads - 1].claim_end, *file_size);
            for i in 1..num_threads {
                assert_eq!(segments[i].claim_start, segments[i - 1].claim_end);
            }
            for (i, seg) in segments.iter().enumerate() {
                if i > 0 {
                    assert!(seg.start <= seg.claim_start);
                }
                assert!(seg.end >= seg.claim_end);
            }
            for seg in segments.iter().take(num_threads) {
                assert!(seg.claim_start < seg.claim_end);
            }
        }
    }
}

#[test]
fn test_thread_count_selection() {
    assert_eq!(
        select_thread_count("\\\\.\\PhysicalDrive0", 1_000_000_000, 8),
        1
    );
    assert_eq!(select_thread_count("/dev/sda", 1_000_000_000, 8), 1);
    assert_eq!(select_thread_count("/dev/nvme0n1p2", 500_000_000_000, 8), 1);
    assert_eq!(select_thread_count("small.img", 10 * 1024 * 1024, 8), 1);
    assert_eq!(select_thread_count("small.img", 15 * 1024 * 1024, 8), 1);
    for cpu_cores in 1..20 {
        let count = select_thread_count("large.img", 1_000_000_000, cpu_cores);
        if cpu_cores > 1 {
            assert!(count > 1);
        }
        assert!(count <= 8);
        assert!(count <= cpu_cores);
        assert!(count >= 1);
    }
    assert_eq!(select_thread_count("medium.img", 16 * 1024 * 1024, 8), 1);
    assert!(select_thread_count("medium.img", 32 * 1024 * 1024, 8) <= 2);
}

#[test]
fn test_multithreaded_scan_consistency() {
    let (data, expected) = create_test_image();
    let sigs = media_sigs();
    let result_1 = scan_with_threads(&data, &sigs, 1);
    for num_threads in [2, 3, 4, 7] {
        let result_n = scan_with_threads(&data, &sigs, num_threads);
        assert_eq!(result_1.found_files.len(), result_n.found_files.len());
        for (f1, fn_) in result_1.found_files.iter().zip(result_n.found_files.iter()) {
            assert_eq!(f1.offset, fn_.offset);
            assert_eq!(f1.signature.extension, fn_.signature.extension);
            assert_eq!(f1.size, fn_.size);
        }
        for (ext, offset) in &expected {
            assert!(result_n
                .found_files
                .iter()
                .any(|f| f.signature.extension == *ext && f.offset == *offset));
        }
        assert_eq!(result_1.photos_count, result_n.photos_count);
        assert_eq!(result_1.videos_count, result_n.videos_count);
        assert_eq!(result_1.audios_count, result_n.audios_count);
        assert_eq!(result_1.documents_count, result_n.documents_count);
    }
}

#[test]
fn test_signature_at_segment_boundary() {
    let file_size = 20 * 1024 * 1024usize;
    let mut data = vec![0u8; file_size];
    let sigs = signatures_for_categories(&[FileCategory::Photo]);
    let overlap = max_signature_reach(&sigs) as u64;
    let segments = calculate_segments(file_size as u64, 2, overlap);
    let boundary = segments[0].claim_end as usize;
    assert!(boundary + 2050 < file_size);
    data[boundary..boundary + 3].copy_from_slice(&[0xFF, 0xD8, 0xFF]);
    for i in 3..2048 {
        data[boundary + i] = ((i * 7) % 256) as u8;
    }
    data[boundary + 2048..boundary + 2050].copy_from_slice(&[0xFF, 0xD9]);
    let before = 1024usize;
    data[before..before + 3].copy_from_slice(&[0xFF, 0xD8, 0xFF]);
    for i in 3..2048 {
        data[before + i] = ((i * 13) % 256) as u8;
    }
    data[before + 2048..before + 2050].copy_from_slice(&[0xFF, 0xD9]);

    let result = scan_with_threads(&data, &sigs, 2);
    assert!(result
        .found_files
        .iter()
        .any(|f| f.offset == boundary as u64));
    assert!(result.found_files.iter().any(|f| f.offset == before as u64));
}

#[test]
fn test_jpeg_with_embedded_exif_thumbnail_recovers_full_size() {
    let mut data = vec![0u8; 200 * 1024];
    let pos = 1000usize;
    data[pos..pos + 3].copy_from_slice(&[0xFF, 0xD8, 0xFF]);
    let thumb = pos + 50;
    data[thumb..thumb + 3].copy_from_slice(&[0xFF, 0xD8, 0xFF]);
    for i in 3..200 {
        data[thumb + i] = ((i * 3) % 256) as u8;
    }
    data[thumb + 200..thumb + 202].copy_from_slice(&[0xFF, 0xD9]);
    for i in (thumb + 202)..pos + 100_000 {
        data[i] = ((i * 5) % 256) as u8;
    }
    let real_footer = pos + 100_000;
    data[real_footer..real_footer + 2].copy_from_slice(&[0xFF, 0xD9]);

    let sigs = signatures_for_categories(&[FileCategory::Photo]);
    let result = scan(&data, &sigs);
    let jpeg = result
        .found_files
        .iter()
        .find(|f| f.signature.extension == "jpg" && f.offset == pos as u64)
        .expect("no JPEG");
    assert_eq!(jpeg.size as usize, real_footer + 2 - pos);
}

#[test]
fn test_two_jpegs_in_same_buffer_do_not_englobe() {
    let mut data = vec![0u8; 20 * 1024];
    let pos1 = 100usize;
    data[pos1..pos1 + 3].copy_from_slice(&[0xFF, 0xD8, 0xFF]);
    for i in 3..2000 {
        data[pos1 + i] = ((i * 7) % 256) as u8;
    }
    data[pos1 + 2000..pos1 + 2002].copy_from_slice(&[0xFF, 0xD9]);
    let pos2 = pos1 + 2100;
    data[pos2..pos2 + 3].copy_from_slice(&[0xFF, 0xD8, 0xFF]);
    for i in 3..2000 {
        data[pos2 + i] = ((i * 11) % 256) as u8;
    }
    data[pos2 + 2000..pos2 + 2002].copy_from_slice(&[0xFF, 0xD9]);

    let sigs = signatures_for_categories(&[FileCategory::Photo]);
    let result = scan(&data, &sigs);
    let jpeg1 = result
        .found_files
        .iter()
        .find(|f| f.offset == pos1 as u64)
        .unwrap();
    assert_eq!(jpeg1.size, 2002);
}

#[test]
fn test_find_footer_sequential_is_cancelable() {
    let mut data = vec![b'A', b'B'];
    data.extend(vec![0x11u8; 4000]);
    data.extend_from_slice(b"ZZ");
    let end = data.len() as u64;
    let search = || FooterSearch::new(0, 2, end, b"AB", b"ZZ", 4 * 1024 * 1024);
    assert!(search_footer(&data, search(), true).is_none());
    assert!(search_footer(&data, search(), false).is_some());
    assert_eq!(search_footer(&data, search(), false), Some(end));
}

#[test]
fn test_mp3_aac_frame_chaining_rejects_most_random_data() {
    let sigs = signatures_for_categories(&[FileCategory::Audio]);
    let mp3_sig = sigs.iter().find(|s| s.name == "MP3 (Sync)").unwrap();
    let aac_sig = sigs.iter().find(|s| s.name == "AAC").unwrap();

    let mut state: u64 = 0x9E3779B97F4A7C15;
    let mut next = || {
        state ^= state << 13;
        state ^= state >> 7;
        state ^= state << 17;
        state
    };

    let trials = 200_000usize;
    let mut mp3_pass = 0usize;
    let mut aac_pass = 0usize;
    let mut buf = [0u8; 8300];
    for _ in 0..trials {
        for chunk in buf.chunks_mut(8) {
            let v = next().to_le_bytes();
            chunk.copy_from_slice(&v[..chunk.len()]);
        }
        buf[0] = 0xFF;
        buf[1] = 0xFB;
        if let Some((f, _)) = mp3_sig.validator {
            if f.accepts(&buf) {
                mp3_pass += 1;
            }
        }
        buf[1] = 0xF1;
        if let Some((f, _)) = aac_sig.validator {
            if f.accepts(&buf) {
                aac_pass += 1;
            }
        }
    }
    let mp3_pct = mp3_pass as f64 / trials as f64 * 100.0;
    let aac_pct = aac_pass as f64 / trials as f64 * 100.0;
    assert!(mp3_pct < 5.0, "MP3 lets too much through: {:.4}%", mp3_pct);
    assert!(aac_pct < 5.0, "AAC lets too much through: {:.4}%", aac_pct);
}

#[test]
fn test_tiff_big_endian_detection() {
    let mut data = vec![0u8; 4096];
    let pos = 512usize;
    data[pos..pos + 4].copy_from_slice(&[0x4D, 0x4D, 0x00, 0x2A]);
    let sigs = signatures_for_categories(&[FileCategory::Photo]);
    let result = scan(&data, &sigs);
    let tiff_be = result
        .found_files
        .iter()
        .find(|f| f.offset == pos as u64)
        .expect("no TIFF");
    assert_eq!(tiff_be.signature.extension, "tiff");
    assert_eq!(tiff_be.signature.name, "TIFF (big-endian)");
}

#[test]
fn test_heic_mp4_disambiguation() {
    let mut data = vec![0u8; 4096];
    let heic_pos = 256usize;
    data[heic_pos + 4..heic_pos + 8].copy_from_slice(b"ftyp");
    data[heic_pos + 8..heic_pos + 12].copy_from_slice(b"heic");
    let mp4_pos = 1024usize;
    data[mp4_pos + 4..mp4_pos + 8].copy_from_slice(b"ftyp");
    data[mp4_pos + 8..mp4_pos + 12].copy_from_slice(b"isom");
    let sigs = signatures_for_categories(&[FileCategory::Photo, FileCategory::Video]);
    let result = scan(&data, &sigs);
    assert_eq!(extensions_at(&result, heic_pos as u64), vec!["heic"]);
    assert_eq!(extensions_at(&result, mp4_pos as u64), vec!["mp4"]);
}

#[test]
fn test_cr2_tiff_disambiguation() {
    let mut data = vec![0u8; 4096];
    let cr2_pos = 256usize;
    data[cr2_pos..cr2_pos + 4].copy_from_slice(&[0x49, 0x49, 0x2A, 0x00]);
    data[cr2_pos + 8..cr2_pos + 12].copy_from_slice(b"CR\x02\x00");
    let tiff_pos = 1024usize;
    data[tiff_pos..tiff_pos + 4].copy_from_slice(&[0x49, 0x49, 0x2A, 0x00]);
    data[tiff_pos + 8..tiff_pos + 12].copy_from_slice(&[0x00, 0x00, 0x00, 0x00]);
    let sigs = signatures_for_categories(&[FileCategory::Photo]);
    let result = scan(&data, &sigs);
    assert_eq!(extensions_at(&result, cr2_pos as u64), vec!["cr2"]);
    assert_eq!(extensions_at(&result, tiff_pos as u64), vec!["tiff"]);
}

#[test]
fn test_pdf_header_footer_detection() {
    let mut data = vec![0u8; 4096];
    let pos = 512usize;
    data[pos..pos + 5].copy_from_slice(b"%PDF-");
    for i in 5..800 {
        data[pos + i] = ((i * 19) % 256) as u8;
    }
    data[pos + 800..pos + 805].copy_from_slice(b"%%EOF");
    let sigs = signatures_for_categories(&[FileCategory::Document]);
    let result = scan(&data, &sigs);
    let pdf = result
        .found_files
        .iter()
        .find(|f| f.offset == pos as u64)
        .expect("no PDF");
    assert_eq!(pdf.signature.extension, "pdf");
    assert_eq!(pdf.size, 805);
}

#[test]
fn test_3gp_m4a_not_duplicated_as_mp4() {
    let mut data = vec![0u8; 4096];
    let gp3_pos = 256usize;
    data[gp3_pos + 4..gp3_pos + 8].copy_from_slice(b"ftyp");
    data[gp3_pos + 8..gp3_pos + 12].copy_from_slice(b"3gp4");
    let m4a_pos = 1024usize;
    data[m4a_pos + 4..m4a_pos + 8].copy_from_slice(b"ftyp");
    data[m4a_pos + 8..m4a_pos + 12].copy_from_slice(b"M4A ");
    let sigs = signatures_for_categories(&[FileCategory::Video, FileCategory::Audio]);
    let result = scan(&data, &sigs);
    assert_eq!(extensions_at(&result, gp3_pos as u64), vec!["3gp"]);
    assert_eq!(extensions_at(&result, m4a_pos as u64), vec!["m4a"]);
}

#[test]
fn test_heic_hevm_hevs_brands_detected_as_heic_not_mp4() {
    let mut data = vec![0u8; 4096];
    let hevm_pos = 256usize;
    data[hevm_pos + 4..hevm_pos + 8].copy_from_slice(b"ftyp");
    data[hevm_pos + 8..hevm_pos + 12].copy_from_slice(b"hevm");
    let hevs_pos = 1024usize;
    data[hevs_pos + 4..hevs_pos + 8].copy_from_slice(b"ftyp");
    data[hevs_pos + 8..hevs_pos + 12].copy_from_slice(b"hevs");
    let sigs = signatures_for_categories(&[FileCategory::Photo, FileCategory::Video]);
    let result = scan(&data, &sigs);
    assert_eq!(extensions_at(&result, hevm_pos as u64), vec!["heic"]);
    assert_eq!(extensions_at(&result, hevs_pos as u64), vec!["heic"]);
}

/// A BMP without compression, with both its headers.
fn make_bmp(width: i32, height: i32, bpp: u16) -> Vec<u8> {
    let row = (((width as i64 * bpp as i64 + 31) / 32) * 4) as usize;
    let pixel_offset = 54u32;
    let file_size = pixel_offset as usize + row * height as usize;
    let mut b = vec![0u8; file_size];
    b[0..2].copy_from_slice(b"BM");
    b[2..6].copy_from_slice(&(file_size as u32).to_le_bytes());
    b[10..14].copy_from_slice(&pixel_offset.to_le_bytes());
    b[14..18].copy_from_slice(&40u32.to_le_bytes());
    b[18..22].copy_from_slice(&width.to_le_bytes());
    b[22..26].copy_from_slice(&height.to_le_bytes());
    b[26..28].copy_from_slice(&1u16.to_le_bytes());
    b[28..30].copy_from_slice(&bpp.to_le_bytes());
    b
}

#[test]
fn test_bmp_header_validator() {
    let sigs = signatures_for_categories(&[FileCategory::Photo]);
    let bmp_sig = sigs.iter().find(|s| s.name == "BMP").unwrap();
    let (validator, _needed) = bmp_sig.validator.expect("BMP has a validator");

    let valid = make_bmp(10, 10, 24);
    assert!(validator.accepts(&valid));

    let mut bad_offset = vec![0u8; 100];
    bad_offset[0] = 0x42;
    bad_offset[1] = 0x4D;
    bad_offset[2..6].copy_from_slice(&100u32.to_le_bytes());
    bad_offset[10..14].copy_from_slice(&500u32.to_le_bytes());
    assert!(!validator.accepts(&bad_offset));

    let mut bad_size = vec![0u8; 100];
    bad_size[0] = 0x42;
    bad_size[1] = 0x4D;
    bad_size[2..6].copy_from_slice(&u32::MAX.to_le_bytes());
    bad_size[10..14].copy_from_slice(&54u32.to_le_bytes());
    assert!(!validator.accepts(&bad_size));

    let mut data = vec![0u8; 4096];
    let bmp_pos = 512usize;
    let bmp = make_bmp(20, 20, 24);
    assert!(bmp.len() > 512);
    data[bmp_pos..bmp_pos + bmp.len()].copy_from_slice(&bmp);
    let mut state: u64 = 0xD1B54A32D192ED03;
    let mut next = || {
        state ^= state << 13;
        state ^= state >> 7;
        state ^= state << 17;
        state
    };
    let random_bmp_pos = 2048usize;
    for i in 0..64 {
        data[random_bmp_pos + i] = (next() & 0xFF) as u8;
    }
    data[random_bmp_pos] = 0x42;
    data[random_bmp_pos + 1] = 0x4D;

    let result = scan(&data, &sigs);
    assert_eq!(extensions_at(&result, bmp_pos as u64), vec!["bmp"]);
    let at_random_bmp = result
        .found_files
        .iter()
        .any(|f| f.offset == random_bmp_pos as u64 && f.signature.extension == "bmp");
    assert!(!at_random_bmp);

    let mut odd_dib = make_bmp(10, 10, 24);
    odd_dib[14..18].copy_from_slice(&37u32.to_le_bytes());
    assert!(!validator.accepts(&odd_dib));

    let mut odd_planes = make_bmp(10, 10, 24);
    odd_planes[26..28].copy_from_slice(&7u16.to_le_bytes());
    assert!(!validator.accepts(&odd_planes));

    let mut odd_bpp = make_bmp(10, 10, 24);
    odd_bpp[28..30].copy_from_slice(&13u16.to_le_bytes());
    assert!(!validator.accepts(&odd_bpp));

    let mut reserved = make_bmp(10, 10, 24);
    reserved[6..10].copy_from_slice(&12345u32.to_le_bytes());
    assert!(!validator.accepts(&reserved));

    let mut incoherent = make_bmp(10, 10, 24);
    incoherent[18..22].copy_from_slice(&1000i32.to_le_bytes());
    incoherent[22..26].copy_from_slice(&1000i32.to_le_bytes());
    assert!(!validator.accepts(&incoherent));

    let mut top_down = make_bmp(10, 10, 24);
    top_down[22..26].copy_from_slice(&(-10i32).to_le_bytes());
    assert!(validator.accepts(&top_down));
}

fn whole(size: usize) -> Segment {
    Segment {
        start: 0,
        end: size as u64,
        claim_start: 0,
        claim_end: size as u64,
    }
}

#[test]
fn test_scan_cancellation_stops_before_reading() {
    let mut data = vec![0u8; 4096];
    let pos = 512usize;
    data[pos..pos + 3].copy_from_slice(&[0xFF, 0xD8, 0xFF]);
    for i in 3..2048 {
        data[pos + i] = ((i * 7) % 256) as u8;
    }
    data[pos + 2048..pos + 2050].copy_from_slice(&[0xFF, 0xD9]);
    let sigs = signatures_for_categories(&[FileCategory::Photo]);
    let reach = max_signature_reach(&sigs);
    let segment = whole(4096);

    let mut state = ScanState::idle();
    let mut progress = ScanProgress::new();
    let cancelled = scan_segment(
        &data, &segment, &sigs, reach, &mut progress, &mut state, true,
    );
    assert!(cancelled.found_files.is_empty());
    assert_eq!(progress.bytes, 0);

    let mut progress2 = ScanProgress::new();
    let normal = scan_segment(
        &data, &segment, &sigs, reach, &mut progress2, &mut state, false,
    );
    assert!(normal
        .found_files
        .iter()
        .any(|f| f.signature.extension == "jpg"));
}

/// Writes a JPEG of about 2 KB.
fn write_jpeg(data: &mut [u8], pos: usize) {
    data[pos..pos + 3].copy_from_slice(&[0xFF, 0xD8, 0xFF]);
    for i in 3..2048 {
        data[pos + i] = ((i * 17) % 256) as u8;
    }
    data[pos + 2048..pos + 2050].copy_from_slice(&[0xFF, 0xD9]);
}

#[test]
fn test_found_counter_counts_findings_in_segment() {
    let size = 3 * 1024 * 1024usize;
    let mut data = vec![0u8; size];
    write_jpeg(&mut data, 4096);
    write_jpeg(&mut data, 1_500_000);
    write_jpeg(&mut data, 2_500_000);
    let sigs = signatures_for_categories(&[FileCategory::Photo]);
    let reach = max_signature_reach(&sigs);

    let mut state = ScanState::idle();
    let mut progress = ScanProgress::new();
    let result = scan_segment(
        &data, &whole(size), &sigs, reach, &mut progress, &mut state, false,
    );
    assert!(result.found_files.len() >= 3);
    assert_eq!(progress.files, result.found_files.len() as u64);
    assert_eq!(progress.bytes, size as u64);

    let mut progress2 = ScanProgress::new();
    let claim_start = 1024 * 1024u64;
    let partial = Segment {
        start: 0,
        end: size as u64,
        claim_start,
        claim_end: size as u64,
    };
    let result2 = scan_segment(
        &data, &partial, &sigs, reach, &mut progress2, &mut state, false,
    );
    assert!(result2.found_files.iter().all(|f| f.offset >= claim_start));
    assert_eq!(progress2.files, result2.found_files.len() as u64);
}

#[test]
fn test_scan_progress_files_visible_during_scan() {
    let size = 6 * 1024 * 1024usize;
    let mut data = vec![0u8; size];
    let mut pos = 4096usize;
    let mut written = 0u64;
    while pos + 4096 < size {
        write_jpeg(&mut data, pos);
        pos += 64 * 1024;
        written += 1;
    }
    let sigs = signatures_for_categories(&[FileCategory::Photo]);
    let reach = max_signature_reach(&sigs);
    let mut state = ScanState::idle();
    let mut progress = ScanProgress::new();
    let mut samples = Vec::new();
    let mut scan = SegmentScan::new(whole(size), size as u64, reach);
    while let SegmentNext::Read { offset, want } = scan.next(false) {
        let block = read_at(Some(&data), offset, want).unwrap();
        let found = scan.take_block(&block, &sigs);
        progress.add_bytes(block.len() as u64, &mut state);
        progress.add_files(found, &mut state);
        samples.push(state.progress_files);
    }
    let total = scan.finish().found_files.len() as u64;
    assert!(total >= written);
    assert!(samples.iter().any(|&n| n > 0 && n < total));
}

#[test]
fn test_bytes_scanned_is_per_scan_not_global() {
    // Two scans side by side share what the outside sees; what each reports is its own.
    let mut state = ScanState::idle();
    let mut first = ScanProgress::new();
    let mut second = ScanProgress::new();
    state.begin();
    assert_eq!(first.add_bytes(1000, &mut state), 1000);
    state.begin();
    assert_eq!(state.progress_bytes, 0);
    assert_eq!(second.add_bytes(10, &mut state), 10);
    assert_eq!(first.add_bytes(500, &mut state), 1500);
    assert_eq!(second.add_bytes(5, &mut state), 15);
    assert_eq!(state.progress_bytes, 1500);

    // Between the blocks of each scan, another one of another size starts and ends.
    let size = 15 * 1024 * 1024usize;
    let mut data = vec![0u8; size];
    write_jpeg(&mut data, 4096);
    let big_size = 20 * 1024 * 1024usize;
    let mut big_data = vec![0u8; big_size];
    write_jpeg(&mut big_data, 4096);
    let other = vec![0u8; 700 * 1024];
    let sigs = signatures_for_categories(&[FileCategory::Photo]);
    assert_eq!(select_thread_count("imagen.img", size as u64, 4), 1);
    let mut observed = Vec::new();
    for _ in 0..3 {
        observed.push((
            scan_beside_others(&data, &sigs, 1, &other).bytes_scanned,
            size as u64,
        ));
        observed.push((
            scan_beside_others(&big_data, &sigs, 4, &other).bytes_scanned,
            big_size as u64,
        ));
    }
    for (got, expected) in observed {
        assert_eq!(
            got, expected,
            "bytes_scanned se corrompió con escaneos concurrentes"
        );
    }
}

/// Scans a source while other scans run: what the outside sees is shared by all of them.
fn scan_beside_others(
    source: &[u8],
    sigs: &[FileSignature],
    threads: usize,
    other: &[u8],
) -> ScanResult {
    let size = source.len() as u64;
    let reach = max_signature_reach(sigs);
    let mut state = ScanState::idle();
    state.begin();
    let mut progress = ScanProgress::new();
    let mut parts = Vec::new();
    let mut blocks = 0;
    for segment in plan_segments(size, threads, reach) {
        let mut scan = SegmentScan::new(segment, size, reach);
        while let SegmentNext::Read { offset, want } = scan.next(false) {
            if blocks % 8 == 0 {
                state.begin();
                let mut foreign = ScanProgress::new();
                scan_segment(
                    other, &whole(other.len()), sigs, reach, &mut foreign, &mut state, false,
                );
                assert_eq!(foreign.bytes, other.len() as u64);
            } else if blocks % 8 == 4 {
                state.begin();
            }
            blocks += 1;
            let block = read_at(Some(source), offset, want).unwrap();
            let found = scan.take_block(&block, sigs);
            progress.add_bytes(block.len() as u64, &mut state);
            progress.add_files(found, &mut state);
        }
        parts.push(scan.finish());
    }
    settle(source, ScanRun::new(size, threads, parts), &progress, &state)
}

/// An MPEG-1 Layer III frame of 417 bytes.
fn mpeg_frame() -> Vec<u8> {
    let mut f = vec![0xFF, 0xFB, 0x90, 0x00];
    f.resize(417, 0x5A);
    f
}

/// An ADTS frame of 200 bytes.
fn adts_frame() -> Vec<u8> {
    let mut f = vec![0xFF, 0xF1, 0x50, 0x00, 200 >> 3, 0x00, 0x00];
    f.resize(200, 0x5A);
    f
}

#[test]
fn test_mp3_se_carvea_con_su_tamano_real_no_hasta_max_size() {
    let mp3 = mpeg_frame().repeat(40);
    let mut data = vec![0u8; 4096];
    let offset = data.len();
    data.extend_from_slice(&mp3);
    data.extend_from_slice(&[0x00; 4096]);
    let found = scan_bytes(&data, &audio_sigs());
    let f = found.iter().find(|f| f.offset == offset as u64).unwrap();
    assert_eq!(f.size, mp3.len() as u64);
    assert!(f.footer_found);
    assert_eq!(f.integrity(), Integrity::Intact);
}

#[test]
fn test_los_frames_internos_de_un_mp3_no_salen_como_archivos_sueltos() {
    let mp3 = mpeg_frame().repeat(40);
    let mut data = vec![0u8; 4096];
    data.extend_from_slice(&mp3);
    data.extend_from_slice(&[0x00; 4096]);
    assert_eq!(scan_bytes(&data, &audio_sigs()).len(), 1);
}

#[test]
fn test_aac_se_carvea_con_su_tamano_real() {
    let aac = adts_frame().repeat(60);
    let mut data = vec![0u8; 4096];
    let offset = data.len();
    data.extend_from_slice(&aac);
    data.extend_from_slice(&[0x00; 4096]);
    let found = scan_bytes(&data, &audio_sigs());
    assert_eq!(found.len(), 1);
    assert_eq!(found[0].offset, offset as u64);
    assert_eq!(found[0].size, aac.len() as u64);
    assert_eq!(found[0].integrity(), Integrity::Intact);
}

#[test]
fn test_un_syncword_suelto_en_datos_binarios_no_es_un_audio() {
    let mut data = vec![0u8; 2048];
    data.extend_from_slice(&mpeg_frame().repeat(2));
    for i in 0..8192 {
        data.push(((i * 31 + 7) % 251) as u8);
    }
    assert!(scan_bytes(&data, &audio_sigs()).is_empty());
}

#[test]
fn test_un_mp3_que_ocupa_todo_el_origen_no_queda_marcado_danado() {
    let mp3 = mpeg_frame().repeat(40);
    let found = scan_bytes(&mp3, &audio_sigs());
    assert_eq!(found.len(), 1);
    assert_eq!(found[0].offset, 0);
    assert_eq!(found[0].size, mp3.len() as u64);
    assert_eq!(found[0].integrity(), Integrity::Intact);
}

#[test]
fn test_un_mp3_mas_grande_que_el_buffer_cierra_su_cadena_leyendo_del_disco() {
    let mp3 = mpeg_frame().repeat(3000);
    assert!(mp3.len() > BUFFER_SIZE);
    let mut data = vec![0u8; 8192];
    let offset = data.len();
    data.extend_from_slice(&mp3);
    data.extend_from_slice(&[0x00; 8192]);
    let found = scan_bytes(&data, &audio_sigs());
    let f = found.iter().find(|f| f.offset == offset as u64).unwrap();
    assert_eq!(f.size, mp3.len() as u64);
    assert_eq!(f.integrity(), Integrity::Intact);
}

#[test]
fn test_un_mp3_con_etiqueta_id3_incluye_la_etiqueta_en_su_tamano() {
    let tag_body = 500usize;
    let mut mp3 = vec![b'I', b'D', b'3', 0x03, 0x00, 0x00];
    mp3.extend_from_slice(&[
        0,
        0,
        ((tag_body >> 7) & 0x7F) as u8,
        (tag_body & 0x7F) as u8,
    ]);
    mp3.resize(mp3.len() + tag_body, 0u8);
    mp3.extend_from_slice(&mpeg_frame().repeat(30));
    let mut data = vec![0u8; 4096];
    let offset = data.len();
    data.extend_from_slice(&mp3);
    data.extend_from_slice(&[0x00; 4096]);
    let found = scan_bytes(&data, &audio_sigs());
    let f = found.iter().find(|f| f.offset == offset as u64).unwrap();
    assert_eq!(f.size, mp3.len() as u64);
}

#[test]
fn test_se_reconocen_los_mp3_de_mpeg2_y_mpeg25() {
    let mut v2 = vec![0xFF, 0xF3, 0x80, 0x00];
    v2.resize(208, 0x5A);
    let mut v25 = vec![0xFF, 0xE3, 0x80, 0x00];
    v25.resize(417, 0x5A);
    for (name, frame) in [("MPEG-2 22050 Hz", v2), ("MPEG-2.5 11025 Hz", v25)] {
        let mut audio = vec![b'I', b'D', b'3', 0x03, 0x00, 0x00, 0, 0, 0, 0];
        audio.extend_from_slice(&frame.repeat(30));
        let mut data = vec![0u8; 4096];
        let offset = data.len();
        data.extend_from_slice(&audio);
        data.extend_from_slice(&[0x00; 4096]);
        let found = scan_bytes(&data, &audio_sigs());
        let f = found.iter().find(|f| f.offset == offset as u64).unwrap();
        assert_eq!(f.size, audio.len() as u64, "{}", name);
        assert_eq!(f.integrity(), Integrity::Intact, "{}", name);
    }
}

/// A box file: `ftyp`, `moov` and `mdat` with so many bytes.
fn make_mp4(len: usize) -> Vec<u8> {
    let mut b = Vec::new();
    b.extend_from_slice(&16u32.to_be_bytes());
    b.extend_from_slice(b"ftypisom");
    b.extend_from_slice(&[0u8; 4]);
    b.extend_from_slice(&24u32.to_be_bytes());
    b.extend_from_slice(b"moov");
    b.extend_from_slice(&[0x11; 16]);
    b.extend_from_slice(&((len + 8) as u32).to_be_bytes());
    b.extend_from_slice(b"mdat");
    b.resize(16 + 24 + 8 + len, 0x5A);
    b
}

#[test]
fn test_dos_videos_pegados_no_se_fusionan_en_uno() {
    let a = make_mp4(2000);
    let b = make_mp4(3000);
    let mut data = vec![0u8; 4096];
    let (off_a, off_b) = (data.len(), data.len() + a.len());
    data.extend_from_slice(&a);
    data.extend_from_slice(&b);
    data.extend_from_slice(&[0x00; 4096]);
    let sigs = signatures_for_categories(&[FileCategory::Video]);
    let found = scan_bytes(&data, &sigs);
    let fa = found.iter().find(|f| f.offset == off_a as u64).unwrap();
    let fb = found.iter().find(|f| f.offset == off_b as u64).unwrap();
    assert_eq!(fa.size, a.len() as u64);
    assert_eq!(fb.size, b.len() as u64);
}

#[test]
fn test_una_caja_hasta_el_fin_del_archivo_no_se_declara_integra_a_medias() {
    let mut mp4 = Vec::new();
    mp4.extend_from_slice(&16u32.to_be_bytes());
    mp4.extend_from_slice(b"ftypisom");
    mp4.extend_from_slice(&[0u8; 4]);
    mp4.extend_from_slice(&24u32.to_be_bytes());
    mp4.extend_from_slice(b"moov");
    mp4.extend_from_slice(&[0x11; 16]);
    mp4.extend_from_slice(&0u32.to_be_bytes());
    mp4.extend_from_slice(b"mdat");
    mp4.resize(16 + 24 + 8 + 4000, 0x5A);
    let mut data = vec![0u8; 4096];
    let offset = data.len();
    data.extend_from_slice(&mp4);
    data.extend_from_slice(&[0x00; 4096]);
    let sigs = signatures_for_categories(&[FileCategory::Video]);
    let found = scan_bytes(&data, &sigs);
    let f = found.iter().find(|f| f.offset == offset as u64).unwrap();
    assert_ne!(f.integrity(), Integrity::Intact);
    assert!(f.size >= mp4.len() as u64);
}

#[test]
fn test_un_ftyp_gigante_no_se_traga_las_fotos_de_adentro() {
    let mut jpeg = vec![0xFF, 0xD8, 0xFF];
    jpeg.resize(2048, 0x7C);
    jpeg.extend_from_slice(&[0xFF, 0xD9]);
    let total = 200_000usize;
    let mut fake = Vec::new();
    fake.extend_from_slice(&(total as u32).to_be_bytes());
    fake.extend_from_slice(b"ftypisom");
    fake.extend_from_slice(&[0u8; 4]);
    fake.resize(total, 0x00);
    let photo = 50_000;
    fake[photo..photo + jpeg.len()].copy_from_slice(&jpeg);
    fake.extend_from_slice(&24u32.to_be_bytes());
    fake.extend_from_slice(b"moov");
    fake.extend_from_slice(&[0x11; 16]);
    let mut data = vec![0u8; 4096];
    let photo_offset = data.len() + photo;
    data.extend_from_slice(&fake);
    data.extend_from_slice(&[0x00; 4096]);
    let sigs = signatures_for_categories(&[FileCategory::Photo, FileCategory::Video]);
    let found = scan_bytes(&data, &sigs);
    assert!(found.iter().any(|f| f.offset == photo_offset as u64));
}

#[test]
fn test_un_audio_cortado_al_final_se_recupera_entero_y_sin_mentir() {
    let mp3 = mpeg_frame().repeat(40);
    let cut = &mp3[..mp3.len() - 200];
    let mut data = vec![0u8; 4096];
    let offset = data.len();
    data.extend_from_slice(cut);
    let found = scan_bytes(&data, &audio_sigs());
    assert_eq!(found.len(), 1);
    assert_eq!(found[0].offset, offset as u64);
    assert_eq!(found[0].integrity(), Integrity::Unverifiable);
    assert!(found[0].size >= (cut.len() - 2000) as u64);
}

#[test]
fn test_las_lecturas_siempre_quedan_alineadas_a_sector() {
    let data: Vec<u8> = (0..8192u32).map(|i| (i % 251) as u8).collect();
    for buf_len in [
        ISOBMFF_HEADER_READ + SECTOR as usize,
        2 * SECTOR as usize,
        4 * SECTOR as usize,
        1024 + SECTOR as usize,
    ] {
        for offset in (0u64..600).chain([1023, 1024, 1025, 4095, 4096]) {
            for want in [16usize, 100, 512, 1000] {
                if want + SECTOR as usize > buf_len {
                    continue;
                }
                let plan = plan_aligned_read(offset, want, buf_len);
                assert_eq!(plan.position % SECTOR, 0);
                assert_eq!(plan.length as u64 % SECTOR, 0);
                assert!(plan.length <= buf_len);
                let got = read_at(Some(&data), plan.position, plan.length).unwrap();
                let n = useful_bytes(got.len(), plan.skew, want);
                let from = offset as usize;
                assert_eq!(&got[plan.skew..plan.skew + n], &data[from..from + n]);
                if buf_len % SECTOR as usize == 0 {
                    assert_eq!(n, want.min(data.len() - from));
                }
            }
        }
    }
}

#[test]
fn test_lo_que_no_se_pudo_determinar_se_guarda_igual() {
    let sig = mp3_sync();
    let mut unknown = found_with(sig.clone(), false);
    unknown.end_unknown = true;
    assert_eq!(unknown.integrity(), Integrity::Unverifiable);

    let mut incomplete = found_with(sig.clone(), true);
    incomplete.end_unknown = true;
    assert_eq!(incomplete.integrity(), Integrity::Unverifiable);

    let mut rejected = found_with(sig, false);
    rejected.end_unknown = false;
    assert_eq!(rejected.integrity(), Integrity::Suspect);
}

#[test]
fn test_un_isobmff_sin_indice_no_se_da_por_bueno() {
    let mut no_index = Vec::new();
    no_index.extend_from_slice(&16u32.to_be_bytes());
    no_index.extend_from_slice(b"ftypisom");
    no_index.extend_from_slice(&[0u8; 4]);
    no_index.extend_from_slice(&2008u32.to_be_bytes());
    no_index.extend_from_slice(b"mdat");
    no_index.resize(16 + 2008, 0x5A);
    let mut data = vec![0u8; 4096];
    let offset = data.len();
    data.extend_from_slice(&no_index);
    data.extend_from_slice(&[0x00; 4096]);
    let sigs = signatures_for_categories(&[FileCategory::Video]);
    let found = scan_bytes(&data, &sigs);
    if let Some(f) = found.iter().find(|f| f.offset == offset as u64) {
        assert_ne!(f.integrity(), Integrity::Intact);
    }

    let with_index = make_mp4(2000);
    let mut data = vec![0u8; 4096];
    let offset = data.len();
    data.extend_from_slice(&with_index);
    data.extend_from_slice(&[0x00; 4096]);
    let found = scan_bytes(&data, &sigs);
    let f = found.iter().find(|f| f.offset == offset as u64).unwrap();
    assert_eq!(f.integrity(), Integrity::Intact);
    assert_eq!(f.size, with_index.len() as u64);
}

#[test]
fn test_un_isobmff_que_no_empieza_en_ftyp_no_se_da_por_bueno() {
    let mut midway = Vec::new();
    midway.extend_from_slice(&24u32.to_be_bytes());
    midway.extend_from_slice(b"moov");
    midway.extend_from_slice(&[0x11; 16]);
    midway.extend_from_slice(&2008u32.to_be_bytes());
    midway.extend_from_slice(b"mdat");
    midway.resize(24 + 2008, 0x5A);
    assert!(isobmff_end(&midway, true).is_none());
}

#[test]
fn test_la_cancelacion_se_nota_ya_en_el_primer_candidato() {
    let mp3 = mpeg_frame().repeat(3000);
    let sig = mp3_sync();
    let mut files: Vec<FoundFile> = (0..5).map(|_| found_with(sig.clone(), false)).collect();
    refine_audio_streams(Some(&mp3), &mut files, true);
    assert!(files.iter().all(|f| !f.footer_found));
    assert!(files.iter().all(|f| !f.end_unknown));
}

#[test]
fn test_si_no_se_puede_leer_el_origen_el_archivo_se_conserva() {
    let mut files = vec![found_with(mp3_sync(), false)];
    refine_audio_streams(None, &mut files, false);
    assert!(files[0].end_unknown);
    assert_eq!(files[0].integrity(), Integrity::Unverifiable);
}

#[test]
fn test_un_audio_mas_largo_que_el_maximo_da_un_archivo_y_no_miles() {
    let mp3 = mpeg_frame().repeat(3000);
    let cap = 100_000u64;
    let walk = AudioWalk::new(0, cap, mp3_sync().audio_stream().unwrap(), 1024 * 1024);
    match walk_audio(Some(&mp3), walk, false) {
        EndResult::SizeGuess(size) => assert!(size > 0 && size <= cap),
        other => panic!("an assumed size was due, not {:?}", other),
    }
}

#[test]
fn test_un_video_cortado_no_borra_los_archivos_que_vienen_despues() {
    let mut mp4 = Vec::new();
    mp4.extend_from_slice(&16u32.to_be_bytes());
    mp4.extend_from_slice(b"ftypisom");
    mp4.extend_from_slice(&[0u8; 4]);
    mp4.extend_from_slice(&24u32.to_be_bytes());
    mp4.extend_from_slice(b"moov");
    mp4.extend_from_slice(&[0x11; 16]);
    mp4.extend_from_slice(&(1u32 << 30).to_be_bytes());
    mp4.extend_from_slice(b"mdat");
    mp4.resize(16 + 24 + 8 + 2000, 0x5A);
    let mut data = vec![0u8; 4096];
    data.extend_from_slice(&mp4);
    let mut photos = Vec::new();
    for _ in 0..5 {
        data.extend_from_slice(&[0x00; 4096]);
        photos.push(data.len() as u64);
        let mut jpeg = vec![0xFF, 0xD8, 0xFF];
        jpeg.resize(3000, 0x7C);
        jpeg.extend_from_slice(&[0xFF, 0xD9]);
        data.extend_from_slice(&jpeg);
    }
    data.extend_from_slice(&[0x00; 4096]);
    let sigs = signatures_for_categories(&[FileCategory::Photo, FileCategory::Video]);
    let found = scan_bytes(&data, &sigs);
    for offset in &photos {
        assert!(found.iter().any(|f| f.offset == *offset));
    }
}

#[test]
fn test_el_refinamiento_de_audio_respeta_la_cancelacion() {
    let mp3 = mpeg_frame().repeat(3000);
    assert!(mp3.len() > BUFFER_SIZE);
    let mut files = vec![found_with(mp3_sync(), false)];
    let size_before = files[0].size;
    refine_audio_streams(Some(&mp3), &mut files, true);
    assert!(!files[0].footer_found);
    assert_eq!(files[0].size, size_before);
    refine_audio_streams(Some(&mp3), &mut files, false);
    assert!(files[0].footer_found);
    assert_eq!(files[0].size, mp3.len() as u64);
}

#[test]
fn test_el_refinamiento_de_video_respeta_la_cancelacion() {
    let mp4 = make_mp4(1000);
    let sig = signatures_for_categories(&[FileCategory::Video])
        .into_iter()
        .find(|s| s.name == "MP4/M4V")
        .unwrap();
    let mut files = vec![found_with(sig, false)];
    let size_before = files[0].size;
    refine_isobmff_sizes(&mp4, &mut files, true);
    assert!(!files[0].footer_found);
    assert_eq!(files[0].size, size_before);
    refine_isobmff_sizes(&mp4, &mut files, false);
    assert!(files[0].footer_found);
    assert_eq!(files[0].size, mp4.len() as u64);
}

#[test]
fn a_cancelled_run_reads_nothing_and_keeps_its_finds() {
    let mut data = vec![0u8; 3 * 1024 * 1024];
    write_jpeg(&mut data, 4096);
    let sigs = signatures_for_categories(&[FileCategory::Photo]);
    let reach = max_signature_reach(&sigs);
    let mut state = ScanState::idle();
    let mut progress = ScanProgress::new();
    let part = scan_segment(
        &data, &whole(data.len()), &sigs, reach, &mut progress, &mut state, false,
    );
    let count = part.found_files.len();
    let mut run = ScanRun::new(data.len() as u64, 1, vec![part]);
    let mut steps = 0;
    loop {
        match run.step(true) {
            ScanWork::Passed => {}
            ScanWork::Measure => run.note_size(None),
            ScanWork::Finished => break,
            _ => panic!("a cancelled run asked for a read"),
        }
        steps += 1;
        assert!(steps < 10);
    }
    let result = run.finish(progress.bytes, true);
    assert!(result.cancelled);
    assert_eq!(result.found_files.len(), count);
    assert!(result.summary().contains("Cancelaste el escaneo"));
}

#[test]
fn an_unreadable_block_costs_only_what_lies_in_it() {
    let mut data = vec![0u8; 3 * 1024 * 1024];
    write_jpeg(&mut data, 4096);
    write_jpeg(&mut data, 1_500_000);
    write_jpeg(&mut data, 2_500_000);
    let sigs = signatures_for_categories(&[FileCategory::Photo]);
    let reach = max_signature_reach(&sigs);
    let mut scan = SegmentScan::new(whole(data.len()), data.len() as u64, reach);
    while let SegmentNext::Read { offset, want } = scan.next(false) {
        if offset == 1024 * 1024 {
            scan.skip_block(want);
        } else {
            let block = read_at(Some(&data), offset, want).unwrap();
            scan.take_block(&block, &sigs);
        }
    }
    let part = scan.finish();
    assert!(part.had_errors);
    let offsets: Vec<u64> = part.found_files.iter().map(|f| f.offset).collect();
    assert!(offsets.contains(&4096));
    assert!(!offsets.contains(&1_500_000));
    assert!(offsets.contains(&2_500_000));
    let other = SegmentResult::unreadable();
    let run = ScanRun::new(data.len() as u64, 2, vec![part, other]);
    assert!(run.had_errors);
    let result = run.finish(u64::MAX, false);
    assert_eq!(result.bytes_scanned, data.len() as u64);
    assert!(result.summary().contains("errores de I/O"));
}

#[test]
fn the_time_of_a_scan_is_estimated() {
    const MB: u64 = 1_048_576;
    assert!(matches!(estimate_scan("a.img", 150 * MB * 6 - 1, 1), Estimate::Brief));
    assert!(matches!(estimate_scan("a.img", 150 * MB * 6, 1), Estimate::Seconds(6)));
    assert!(matches!(estimate_scan("a.img", 300 * MB * 30, 2), Estimate::Seconds(30)));
    assert!(matches!(
        estimate_scan("a.img", 600 * MB * 61, 8),
        Estimate::Long { mins: 1, secs: 1 }
    ));
    assert!(matches!(
        estimate_scan("/dev/sdb", 40 * MB * 125, 0),
        Estimate::Long { mins: 2, secs: 5 }
    ));
}

#[test]
fn test_recovery() {
    let (image, _) = create_test_image();
    let result = scan(&image, &media_sigs());
    let mut folders: Vec<&str> = Vec::new();
    let mut recovery = Recovery::new(result.found_files.len());
    while let Some(i) = recovery.next(false) {
        let file = &result.found_files[i];
        let mut copy = FileCopy::new(file.offset, file.size);
        let mut saved: Vec<u8> = Vec::new();
        while let Some(want) = copy.next(false) {
            let data = read_at(Some(&image), copy.read_at, want).unwrap();
            if data.is_empty() {
                break;
            }
            let part = copy.take(data.len());
            saved.extend_from_slice(&data[part.skip..part.skip + part.write]);
        }
        let from = file.offset as usize;
        assert_eq!(saved, image[from..from + saved.len()]);
        assert!(!recovery.note_written(file, saved.len() as u64));
        folders.push(folder_for(file.signature.category));
    }
    let recovery = recovery.finish(false, "/salida".to_string());
    assert_eq!(recovery.failed, 0, "Hubo {} fallos de recuperacion", recovery.failed);
    assert!(recovery.recovered > 0, "No se recupero ningun archivo");
    assert!(recovery.total_bytes > 0, "0 bytes recuperados");
    assert!(folders.contains(&"fotos"));
    assert!(folders.contains(&"videos"));
    assert!(folders.contains(&"audios"));
}

#[test]
fn the_reach_counts_from_the_header() {
    let named = |name: &str| -> Vec<FileSignature> {
        all_signatures().into_iter().filter(|s| s.name == name).collect()
    };
    assert_eq!(max_signature_reach(&named("HEIC/HEIF")), 12);
    assert_eq!(max_signature_reach(&named("MP4/M4V")), 12);
    assert_eq!(max_signature_reach(&named("BMP")), 34);
    assert_eq!(max_signature_reach(&named("3GP")), 11);
    assert_eq!(max_signature_reach(&[]), 16);

    // An image that opens just before the border of two blocks is found.
    let heic = named("HEIC/HEIF");
    let reach = max_signature_reach(&heic);
    for ahead in 1..=12usize {
        let at = BUFFER_SIZE - ahead;
        let mut data = vec![0u8; BUFFER_SIZE + 4096];
        data[at..at + 12].copy_from_slice(b"\0\0\0\x18ftypheic");
        let mut state = ScanState::idle();
        let mut progress = ScanProgress::new();
        let result = scan_segment(
            &data, &whole(data.len()), &heic, reach, &mut progress, &mut state, false,
        );
        let places: Vec<u64> = result.found_files.iter().map(|f| f.offset).collect();
        assert_eq!(places, vec![at as u64], "{} bytes before the border", ahead);
    }
}

#[test]
fn a_size_field_counts_from_the_header() {
    let shifted = FileSignature {
        name: "PRUEBA",
        extension: "pru",
        category: FileCategory::Document,
        header: &[0xAB, 0xCD, 0xEF, 0x01],
        header_offset: 8,
        extra_check: None,
        footer: None,
        max_size: 8192,
        validator: None,
        size_from_header: Some((4, 2)),
    };
    assert_eq!(max_signature_reach(&[shifted]), 14);
    let mut data = vec![0u8; 16 * 1024];
    data[108..112].copy_from_slice(&[0xAB, 0xCD, 0xEF, 0x01]);
    data[112..114].copy_from_slice(&1000u16.to_le_bytes());
    let found = scan_bytes(&data, &[shifted]);
    assert_eq!(found.len(), 1);
    assert_eq!((found[0].offset, found[0].size, found[0].footer_found), (100, 1000, true));
}

#[test]
fn the_index_of_the_sample_rate_is_carried() {
    let frame = |second: u8, third: u8, len: usize| {
        let mut f = vec![0xFF, second, third, 0x00];
        f.resize(len, 0x5A);
        f
    };
    // 128 and 160 kbit/s at 44100 Hz, then 48000 Hz.
    let mut data = frame(0xFB, 0x90, 417);
    data.extend(frame(0xFB, 0xA0, 522));
    data.extend(frame(0xFB, 0x94, 384));
    let walk = walk_audio_frames(&data, AudioStream::Mpeg, 99, None);
    assert_eq!((walk.frames, walk.bytes, walk.stop), (2, 939, ChainStop::BadData));
    assert_eq!(walk.sample_rate, Some(0));
    let wrong = walk_audio_frames(&data, AudioStream::Mpeg, 99, Some(1));
    assert_eq!((wrong.frames, wrong.stop), (0, ChainStop::BadData));

    // The same index in MPEG-2 is another rate, so the streams do not chain.
    let mut mixed = frame(0xFB, 0x90, 417);
    mixed.extend(frame(0xF3, 0x90, 261));
    let walk = walk_audio_frames(&mixed, AudioStream::Mpeg, 99, None);
    assert_eq!((walk.frames, walk.stop), (1, ChainStop::BadData));
    assert_eq!(walk.sample_rate, Some(0));
}

#[test]
fn a_walk_resumes_with_the_rate_that_it_returned() {
    let frame = |second: u8, third: u8, len: usize| {
        let mut f = vec![0xFF, second, third, 0x00];
        f.resize(len, 0x5A);
        f
    };
    // MPEG-1 and then MPEG-2, with the same index; then the three versions on their own.
    let mut mixed = frame(0xFB, 0x90, 417);
    mixed.extend(frame(0xF3, 0x80, 208));
    let mut first = frame(0xFB, 0x90, 417);
    first.extend(frame(0xFB, 0x90, 417));
    let mut second = frame(0xF3, 0x80, 208);
    second.extend(frame(0xF3, 0x80, 208));
    // The reserved version is read as MPEG-1.
    let mut reserved = frame(0xFB, 0x90, 417);
    reserved.extend(frame(0xEB, 0x90, 417));
    let mut third = frame(0xE3, 0x80, 417);
    third.extend(frame(0xE3, 0x80, 417));
    for (data, frames, rate) in [
        (&mixed, 1, Some(0)),
        (&first, 2, Some(0)),
        (&reserved, 2, Some(0)),
        (&second, 2, Some(4)),
        (&third, 2, Some(8)),
    ] {
        let whole = walk_audio_frames(data, AudioStream::Mpeg, usize::MAX, None);
        assert_eq!((whole.frames, whole.sample_rate), (frames, rate));
        for cut in 0..=data.len() {
            let head = walk_audio_frames(&data[..cut], AudioStream::Mpeg, usize::MAX, None);
            if head.stop == ChainStop::NoMoreData || head.stop == ChainStop::Truncated {
                let rest = walk_audio_frames(
                    &data[head.bytes..],
                    AudioStream::Mpeg,
                    usize::MAX,
                    head.sample_rate,
                );
                assert_eq!(head.frames + rest.frames, whole.frames);
                assert_eq!(head.bytes + rest.bytes, whole.bytes);
                assert_eq!(rest.stop, whole.stop);
                assert_eq!(rest.sample_rate, whole.sample_rate);
            }
        }
    }
    let whole = walk_audio_frames(&mixed, AudioStream::Mpeg, usize::MAX, None);
    assert_eq!(whole.stop, ChainStop::BadData);
}

#[test]
fn the_first_entry_of_an_office_package_has_a_known_name() {
    for (first, known) in [
        ("[Content_Types].xml", true),
        ("_rels/.rels", true),
        ("xl/_rels/workbook.xml.rels", true),
        ("notes.rels", false),
        ("_rels/other.rels", false),
        ("x_rels/.rels", false),
    ] {
        let docx = build_ooxml(first, "word/document.xml");
        let mut img = vec![0xAA; 4096];
        img.extend_from_slice(&docx);
        img.extend_from_slice(&[0xAA; 4096]);
        assert_eq!(scan_bytes_as_docs(&img).len(), known as usize, "{}", first);
    }
}

#[test]
fn the_pieces_of_a_footer_search_make_no_difference() {
    let mut data = vec![0x11u8; 40];
    for (at, mark) in [(0, b"HEAD"), (9, b"HEAD"), (15, b"TAIL"), (22, b"HEAD"), (26, b"TAIL")] {
        data[at..at + 4].copy_from_slice(mark);
    }
    data[33..37].copy_from_slice(b"TAIL");
    for chunk in 3..60 {
        let search = FooterSearch::new(0, 4, 40, b"HEAD", b"TAIL", chunk);
        assert_eq!(search_footer(&data, search, false), Some(37), "pieces of {}", chunk);
        let short = FooterSearch::new(0, 4, 36, b"HEAD", b"TAIL", chunk);
        assert_eq!(search_footer(&data, short, false), None, "pieces of {}", chunk);
    }
}

#[test]
fn the_result_does_not_depend_on_the_threads() {
    let sigs = signatures_for_categories(&[FileCategory::Photo, FileCategory::Video]);
    let mut data = vec![0x55u8; 3 * BUFFER_SIZE + 777];
    let mut put = |at: usize, bytes: &[u8]| data[at..at + bytes.len()].copy_from_slice(bytes);
    // Files over the borders of blocks and of segments, and one whose header is cut by a border.
    for (at, len) in [
        (BUFFER_SIZE - 2500, 5000),
        (2 * BUFFER_SIZE - 1, 900),
        (BUFFER_SIZE + BUFFER_SIZE / 2, 700_000),
    ] {
        put(at, &[0xFF, 0xD8, 0xFF]);
        put(at + len - 2, &[0xFF, 0xD9]);
    }
    let png = 600_000;
    put(png, &[0x89, 0x50, 0x4E, 0x47, 0x0D, 0x0A, 0x1A, 0x0A]);
    put(png + 2000, &[0x49, 0x45, 0x4E, 0x44, 0xAE, 0x42, 0x60, 0x82]);
    let mp4 = 2 * BUFFER_SIZE + 400_000;
    put(mp4, &[0, 0, 0, 24]);
    put(mp4 + 4, b"ftypisom");
    put(mp4 + 24, &[0, 0, 4, 0]);
    put(mp4 + 28, b"moov");
    put(mp4 + 24 + 1024, &[0, 9, 0, 0]);
    put(mp4 + 28 + 1024, b"mdat");
    put(mp4 + 24 + 1024 + 0x9_0000, &[0xFF; 16]);

    let listed = |result: &ScanResult| {
        let mut list: Vec<(u64, &str, u64, bool)> = result
            .found_files
            .iter()
            .map(|f| (f.offset, f.signature.extension, f.size, f.footer_found))
            .collect();
        list.sort();
        list
    };
    let one = scan_with_threads(&data, &sigs, 1);
    let sizes: Vec<u64> = listed(&one).iter().map(|f| f.2).collect();
    assert_eq!(sizes, vec![2008, 5000, 700_000, 900, 24 + 1024 + 0x9_0000]);
    for threads in 2..9 {
        let many = scan_with_threads(&data, &sigs, threads);
        assert_eq!(listed(&many), listed(&one), "{} threads", threads);
        assert_eq!(many.photos_count, one.photos_count);
        assert_eq!(many.videos_count, one.videos_count);
    }
}

#[test]
fn the_progress_of_a_finished_scan_is_not_shown() {
    let mut state = ScanState::idle();
    assert_eq!(scan_progress_bytes(&state), 0);
    state.begin();
    let mut progress = ScanProgress::new();
    progress.add_bytes(4096, &mut state);
    progress.add_files(2, &mut state);
    assert_eq!(scan_progress_bytes(&state), 4096);
    state.end(2);
    assert_eq!(scan_progress_bytes(&state), 0);
    assert_eq!(scan_progress_files(&state), 2);
}

#[test]
fn dropping_twice_drops_nothing_more() {
    let zip = build_ooxml("[Content_Types].xml", "word/document.xml");
    let sigs = all_signatures();
    let mut data = vec![0u8; 300 * 1024];
    write_jpeg(&mut data, 4096);
    write_jpeg(&mut data, 5000);
    write_jpeg(&mut data, 90_000);
    data[200_000..200_000 + zip.len()].copy_from_slice(&zip);
    let mut state = ScanState::idle();
    let mut progress = ScanProgress::new();
    let reach = max_signature_reach(&sigs);
    let mut files = scan_segment(
        &data, &whole(data.len()), &sigs, reach, &mut progress, &mut state, false,
    )
    .found_files;
    assert!(files.len() > 2);
    let places = |files: &[FoundFile]| -> Vec<(u64, &'static str)> {
        files.iter().map(|f| (f.offset, f.signature.extension)).collect()
    };
    suppress_contained(&mut files);
    let once = places(&files);
    assert!(!once.is_empty());
    suppress_contained(&mut files);
    assert_eq!(places(&files), once);
    let mut sorted = once.clone();
    sorted.sort_unstable();
    sorted.dedup();
    assert_eq!(sorted.len(), once.len(), "no file is reported twice");
}
