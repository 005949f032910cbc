//! Recoveries and clones between sources and outputs held in memory.

use recupe_ghost::clone::{accepts_image, BlockCopy, CloneResult, CloneRun, CloneState, BLOCK};
use recupe_ghost::recovery::{
    folder_for, is_recovery_in_progress, recovery_progress_bytes, recovery_progress_files, FileCopy,
    Recovery, RecoveryResult, RecoveryState,
};
use recupe_ghost::scanner::FoundFile;
use recupe_ghost::signatures::{FileCategory, FileSignature};

const TEST_SIGNATURE: FileSignature = FileSignature {
    name: "TEST",
    extension: "test",
    category: FileCategory::Document,
    header: &[0xAA],
    header_offset: 0,
    extra_check: None,
    footer: None,
    max_size: 4096,
    validator: None,
    size_from_header: None,
};

fn make_found(offset: u64, size: u64, index: usize) -> FoundFile {
    FoundFile {
        signature: TEST_SIGNATURE,
        offset,
        size,
        index,
        footer_found: false,
        end_unknown: false,
    }
}

fn extract_file(source: &[u8], file: &FoundFile, cancelled: bool) -> Vec<u8> {
    let mut copy = FileCopy::new(file.offset, file.size);
    let mut saved = Vec::new();
    while let Some(want) = copy.next(cancelled) {
        let from = (copy.read_at as usize).min(source.len());
        let to = (from + want).min(source.len());
        if from == to {
            break;
        }
        let part = copy.take(to - from);
        saved.extend_from_slice(&source[from + part.skip..from + part.skip + part.write]);
    }
    saved
}

/// Saves the files; `None` in `sources` stands for a file that cannot be read.
fn recover_files(
    source: &[u8],
    files: &[FoundFile],
    cancelled: bool,
    state: &mut RecoveryState,
) -> (RecoveryResult, Vec<(String, Vec<u8>)>) {
    state.begin();
    let mut saved = Vec::new();
    let mut recovery = Recovery::new(files.len());
    while let Some(i) = recovery.next(cancelled) {
        let bytes = extract_file(source, &files[i], cancelled);
        let written = bytes.len() as u64;
        if !recovery.note_written(&files[i], written) {
            let folder = folder_for(files[i].signature.category);
            saved.push((format!("{}/{}", folder, files[i].recovered_filename()), bytes));
        }
        state.show(&recovery);
        assert_eq!(
            recovery_progress_files(state),
            recovery.recovered + recovery.truncated + recovery.failed
        );
    }
    let result = recovery.finish(cancelled, "/salida".to_string());
    state.end();
    (result, saved)
}

#[test]
fn test_truncated_file_not_counted_as_recovered() {
    let source = [0x42u8; 100];
    let mut state = RecoveryState::idle();
    let (result, saved) = recover_files(&source, &[make_found(0, 500, 1)], false, &mut state);
    assert_eq!(result.recovered, 0);
    assert_eq!(result.truncated, 1);
    assert_eq!(result.failed, 0);
    assert_eq!(result.total_bytes, 100);
    assert_eq!(result.errors.len(), 1);
    assert!(result.errors[0].contains("recovered_0001.test"));
    assert!(result.errors[0].contains("truncado"));
    assert_eq!(saved.len(), 1);
    assert_eq!(saved[0].0, "documentos/recovered_0001.test");
    assert_eq!(saved[0].1.len(), 100);
}

#[test]
fn test_complete_file_counted_as_recovered() {
    let source = vec![0x42u8; 500];
    let mut state = RecoveryState::idle();
    let (result, _) = recover_files(&source, &[make_found(0, 200, 1)], false, &mut state);
    assert_eq!(result.recovered, 1);
    assert_eq!(result.truncated, 0);
    assert_eq!(result.failed, 0);
    assert_eq!(result.total_bytes, 200);
    assert!(result.errors.is_empty());
    assert!(!result.cancelled);
}

#[test]
fn test_cancellation_stops_early_and_keeps_partial() {
    let source = vec![0x42u8; 4096];
    let files: Vec<FoundFile> = (0..3)
        .map(|i| make_found(i as u64 * 1000, 1000, i + 1))
        .collect();
    let mut state = RecoveryState::idle();
    let (result, _) = recover_files(&source, &files, true, &mut state);
    assert!(result.cancelled);
    assert_eq!(result.recovered, 0);
    assert_eq!(result.truncated, 0);
    assert_eq!(result.failed, 0);
    assert!(result.summary().contains("Cancelaste"));
}

#[test]
fn test_cancellation_midfile_counts_as_truncated_not_recovered() {
    let source = vec![0x42u8; 200 * 1024];
    let found = make_found(0, 200 * 1024, 1);
    let saved = extract_file(&source, &found, true);
    assert!((saved.len() as u64) < found.size);

    // Cancelled after the first read: what was saved stays, and counts as cut short.
    let mut copy = FileCopy::new(found.offset, found.size);
    let want = copy.next(false).unwrap();
    let part = copy.take(want);
    assert!(copy.next(true).is_none());
    let mut recovery = Recovery::new(1);
    assert_eq!(recovery.next(false), Some(0));
    assert!(!recovery.note_written(&found, part.write as u64));
    let result = recovery.finish(true, "/salida".to_string());
    assert_eq!((result.recovered, result.truncated), (0, 1));
    assert!(!result.cancelled, "nothing was left undone but what counts as cut short");
}

#[test]
fn test_progress_counters_reflect_real_work() {
    let source = vec![0x42u8; 4096];
    let files: Vec<FoundFile> = (0..3)
        .map(|i| make_found(i as u64 * 1000, 1000, i + 1))
        .collect();
    let mut state = RecoveryState::idle();
    let (result, _) = recover_files(&source, &files, false, &mut state);
    assert_eq!(result.recovered, 3);
    assert_eq!(state.files, 3);
    assert_eq!(state.bytes, result.total_bytes);
    assert_eq!(state.bytes, 3000);
}

#[test]
fn files_of_which_nothing_was_written_are_not_counted() {
    let source = [0x42u8; 100];
    let mut state = RecoveryState::idle();
    let files = [make_found(200, 50, 1), make_found(0, 50, 2), make_found(80, 50, 3)];
    let (result, _) = recover_files(&source, &files, false, &mut state);
    assert_eq!((result.recovered, result.truncated, result.failed), (1, 1, 0));
    assert_eq!(recovery_progress_files(&state), 2);
    assert_eq!(recovery_progress_bytes(&state), 70);
    let (result, _) = recover_files(&source, &files[..1], false, &mut state);
    assert_eq!(recovery_progress_files(&state), 0);
    assert_eq!(result.recovered + result.truncated + result.failed, 0);
}

#[test]
fn test_quiet_variant_matches_cli_result() {
    let source = vec![0x42u8; 1024];
    let mut state = RecoveryState::idle();
    let (result, _) = recover_files(&source, &[make_found(0, 300, 1)], false, &mut state);
    assert_eq!(result.recovered, 1);
    assert_eq!(result.total_bytes, 300);
    assert!(!result.cancelled);
    assert!(!is_recovery_in_progress(&state));
}

#[test]
fn saved_bytes_are_the_found_bytes_wherever_they_lie() {
    let source: Vec<u8> = (0..300_000u32).map(|i| (i % 251) as u8).collect();
    for (offset, size) in [(0u64, 1u64), (511, 2), (512, 512), (777, 200_001), (299_000, 1000)] {
        let saved = extract_file(&source, &make_found(offset, size, 1), false);
        assert_eq!(saved, source[offset as usize..(offset + size) as usize]);
    }
}

#[test]
fn problems_are_counted_and_only_some_are_told() {
    let files: Vec<FoundFile> = (0..6).map(|i| make_found(0, 10, i + 1)).collect();
    let mut recovery = Recovery::new(files.len());
    while let Some(i) = recovery.next(false) {
        recovery.note_failed(&files[i], "no hay espacio");
    }
    let result = recovery.finish(false, "/salida".to_string());
    assert_eq!(result.failed, 6);
    assert_eq!(result.errors.len(), 3);
    assert_eq!(result.errors[0], "recovered_0001.test: no hay espacio");
    assert!(result.summary().contains("(+3 más)"));
    assert!(result.summary().contains("/salida"));
    assert_eq!(folder_for(FileCategory::Photo), "fotos");
    assert_eq!(folder_for(FileCategory::Video), "videos");
    assert_eq!(folder_for(FileCategory::Audio), "audios");
}

/// Copies a block; `bad` tells the sectors that cannot be read.
fn copy_block(source: &[u8], mut block: BlockCopy, bad: &[u64], image: &mut Vec<u8>) -> BlockCopy {
    while let Some((offset, want)) = block.next() {
        let end = offset + want as u64;
        let damaged = bad.iter().any(|s| s * 512 < end && offset < (s + 1) * 512);
        if damaged {
            let part = block.take(None);
            assert_eq!(part.data, 0);
            image.resize(image.len() + part.zeros, 0);
        } else {
            let from = (offset as usize).min(source.len());
            let to = (from + want).min(source.len());
            let part = block.take(Some(to - from));
            image.extend_from_slice(&source[from..from + part.data]);
            image.resize(image.len() + part.zeros, 0);
        }
    }
    block
}

fn clone_to_image(
    source: &[u8],
    cancelled: bool,
    bad: &[u64],
    state: &mut CloneState,
) -> (CloneResult, Vec<u8>) {
    let mut image = Vec::new();
    let mut run = CloneRun::new(source.len() as u64);
    state.begin();
    while let Some(block) = run.next(cancelled) {
        let done = copy_block(source, block, bad, &mut image);
        run.note(&done);
        state.progress_bytes = run.pos;
    }
    state.end();
    (run.finish("/copia.img".to_string()), image)
}

#[test]
fn test_copy_block_eof_is_not_counted_as_damage() {
    let source = [0xABu8; 300];
    let mut image = Vec::new();
    let block = copy_block(&source, BlockCopy::new(0, 1024), &[], &mut image);
    assert_eq!(block.good, 300);
    assert_eq!(block.bad, 0);
    assert_eq!(image.len(), 1024);
}

#[test]
fn test_clone_copies_bytes_exactly() {
    let data: Vec<u8> = (0..(BLOCK + 12345)).map(|i| (i % 251) as u8).collect();
    let mut state = CloneState::idle();
    let (result, image) = clone_to_image(&data, false, &[], &mut state);
    assert_eq!(result.total_bytes, data.len() as u64);
    assert_eq!(result.good_bytes, data.len() as u64);
    assert_eq!(result.bad_bytes, 0);
    assert_eq!(result.bad_blocks, 0);
    assert!(!result.cancelled);
    assert!(image == data);
}

#[test]
fn test_clone_cancellation_stops_early() {
    let data = vec![0x5Au8; BLOCK * 4];
    let mut state = CloneState::idle();
    let (result, _) = clone_to_image(&data, true, &[], &mut state);
    assert!(result.cancelled);
    assert!(result.good_bytes < data.len() as u64);
    assert!(result.summary().contains("Cancelaste el clonado"));
}

#[test]
fn test_clone_progress_counter_reaches_total() {
    let data = vec![0x33u8; BLOCK * 2 + 777];
    let mut state = CloneState::idle();
    let (result, _) = clone_to_image(&data, false, &[], &mut state);
    assert_eq!(state.progress_bytes, data.len() as u64);
    assert_eq!(result.total_bytes, data.len() as u64);
}

#[test]
fn test_clone_rejects_symlink_destination() {
    assert!(!accepts_image(true, true, false));
    assert!(!accepts_image(true, false, true));
    assert!(accepts_image(true, false, false));
    assert!(accepts_image(false, false, false));
}

#[test]
fn only_damaged_sectors_are_blank_in_the_image() {
    let data: Vec<u8> = (0..(BLOCK + 5000)).map(|i| (i % 250) as u8 + 1).collect();
    let bad = [3u64, (BLOCK / 512) as u64 + 1];
    let mut state = CloneState::idle();
    let (result, image) = clone_to_image(&data, false, &bad, &mut state);
    assert_eq!(result.bad_bytes, 1024);
    assert_eq!(result.bad_blocks, 2);
    assert_eq!(result.good_bytes, data.len() as u64 - 1024);
    for i in 0..data.len() {
        let blank = bad.contains(&((i / 512) as u64));
        assert_eq!(image[i], if blank { 0 } else { data[i] }, "byte {}", i);
    }
    assert!(result.summary().contains("2 zona/s"));
}
