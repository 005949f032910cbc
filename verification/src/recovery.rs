//! Saving the found files: what is read and written for each, and how the outcome is counted.

use vstd::prelude::*;
use vstd::string::*;

use crate::scanner::found::{self, FoundFile};
use crate::scanner::walk_audio;
use crate::signatures::FileCategory;
use crate::text;
use crate::util;

verus! {

broadcast use vstd::slice::group_slice_axioms;

/// Bytes read at a time while saving: 64 KB.
pub const COPY_CHUNK: u64 = 65_536;

/// Size of a sector; reads of a device start and end at its borders.
pub const SECTOR: u64 = 512;

/// Messages of problems that are kept at most.
pub const MAX_ERRORS_KEPT: usize = 3;

/// What the outside sees of the recovery under way.
#[derive(Debug, Clone, Copy, PartialEq, Eq, Structural)]
pub struct RecoveryState {
    pub in_progress: bool,
    pub cancel_requested: bool,
    pub files: u64,
    pub bytes: u64,
}

impl RecoveryState {
    /// No recovery yet.
    pub fn idle() -> (state: Self)
        ensures
            state == (RecoveryState {
                in_progress: false,
                cancel_requested: false,
                files: 0,
                bytes: 0,
            }),
    {
        RecoveryState { in_progress: false, cancel_requested: false, files: 0, bytes: 0 }
    }

    /// A recovery starts: nothing of the one before is left, not even a request to cancel it.
    pub fn begin(&mut self)
        ensures
            *final(self) == (RecoveryState {
                in_progress: true,
                cancel_requested: false,
                files: 0,
                bytes: 0,
            }),
    {
        self.cancel_requested = false;
        self.files = 0;
        self.bytes = 0;
        self.in_progress = true;
    }

    /// The recovery ended.
    pub fn end(&mut self)
        ensures
            *final(self) == (RecoveryState { in_progress: false, ..*old(self) }),
    {
        self.in_progress = false;
    }

    /// The outside sees what the recovery has counted: the files that were recovered, saved in part
    /// or failed, and the bytes written.
    pub open spec fn shows(self, recovery: Recovery) -> bool {
        &&& self.files == recovery.recovered + recovery.truncated + recovery.failed
        &&& self.bytes == recovery.total_bytes
    }

    /// Lets the outside see what the recovery has counted.
    pub fn show(&mut self, recovery: &Recovery)
        requires
            recovery.well_formed(),
        ensures
            final(self).shows(*recovery),
            *final(self) == (RecoveryState {
                files: final(self).files,
                bytes: final(self).bytes,
                ..*old(self)
            }),
    {
        self.files = recovery.recovered + recovery.truncated + recovery.failed;
        self.bytes = recovery.total_bytes;
    }
}

/// Whether a recovery is under way.
pub fn is_recovery_in_progress(state: &RecoveryState) -> (yes: bool)
    ensures
        yes == state.in_progress,
{
    state.in_progress
}

/// Asks the recovery under way to stop. What was saved stays.
pub fn request_cancel(state: &mut RecoveryState)
    ensures
        *final(state) == (RecoveryState { cancel_requested: true, ..*old(state) }),
{
    state.cancel_requested = true;
}

/// Whether the recovery under way was asked to stop.
pub fn cancel_requested(state: &RecoveryState) -> (yes: bool)
    ensures
        yes == state.cancel_requested,
{
    state.cancel_requested
}

/// Files recovered, saved in part or failed so far.
pub fn recovery_progress_files(state: &RecoveryState) -> (files: u64)
    ensures
        files == state.files,
{
    state.files
}

/// Bytes written so far.
pub fn recovery_progress_bytes(state: &RecoveryState) -> (bytes: u64)
    ensures
        bytes == state.bytes,
{
    state.bytes
}

/// Folder in which files of a category are saved.
pub open spec fn folder_of(category: FileCategory) -> Seq<char> {
    match category {
        FileCategory::Photo => "fotos"@,
        FileCategory::Video => "videos"@,
        FileCategory::Audio => "audios"@,
        FileCategory::Document => "documentos"@,
    }
}

/// Folder in which files of a category are saved.
pub fn folder_for(category: FileCategory) -> (folder: &'static str)
    ensures
        folder@ == folder_of(category),
{
    match category {
        FileCategory::Photo => "fotos",
        FileCategory::Video => "videos",
        FileCategory::Audio => "audios",
        FileCategory::Document => "documentos",
    }
}

/// Copying one file out of the source. Reads start at a sector border and are whole sectors, so
/// some bytes before and behind the file are read and left out.
#[derive(Debug, Clone, Copy, PartialEq, Eq, Structural)]
pub struct FileCopy {
    /// Where the next read starts.
    pub read_at: u64,
    /// Bytes still to be left out before the file starts.
    pub padding: u64,
    pub remaining_read: u64,
    pub remaining_output: u64,
    pub written: u64,
}

/// Which part of the bytes read goes to the file.
#[derive(Debug, Clone, Copy, PartialEq, Eq, Structural)]
pub struct CopyPart {
    pub skip: usize,
    pub write: usize,
}

/// `value` rounded up to whole sectors.
pub open spec fn sectors_up(value: int) -> int {
    ((value + 511) / 512) * 512
}

impl FileCopy {
    /// The reads that are left cover what is left of the file.
    pub open spec fn well_formed(self) -> bool {
        &&& self.padding < 512
        &&& self.padding + self.remaining_output <= self.remaining_read
        &&& self.read_at + self.remaining_read <= u64::MAX
        &&& self.written + self.remaining_output <= u64::MAX
    }

    /// Bytes that the copy wants to read next; 0 where it is done.
    pub open spec fn wanted(self) -> int {
        if self.remaining_output == 0 {
            0
        } else if self.remaining_read <= COPY_CHUNK {
            self.remaining_read as int
        } else {
            COPY_CHUNK as int
        }
    }

    /// Which part of `count` bytes read goes to the file.
    pub open spec fn part_of(self, count: int) -> CopyPart {
        let skip = if self.padding <= count { self.padding as int } else { count };
        let left = count - skip;
        let write = if left <= self.remaining_output { left } else { self.remaining_output as int };
        CopyPart { skip: skip as usize, write: write as usize }
    }

    /// The copy after `count` bytes were read and their part was written.
    pub open spec fn after(self, count: int) -> FileCopy {
        let part = self.part_of(count);
        FileCopy {
            read_at: (self.read_at + count) as u64,
            padding: (self.padding - part.skip) as u64,
            remaining_read: (self.remaining_read - count) as u64,
            remaining_output: (self.remaining_output - part.write) as u64,
            written: (self.written + part.write) as u64,
        }
    }

    /// The copy of a file of `size` bytes at `offset`, before anything was read.
    pub open spec fn started(offset: u64, size: u64) -> FileCopy {
        FileCopy {
            read_at: (offset - offset % 512) as u64,
            padding: (offset % 512) as u64,
            remaining_read: sectors_up(offset % 512 + size) as u64,
            remaining_output: size,
            written: 0,
        }
    }

    /// Starts to copy a file.
    pub fn new(offset: u64, size: u64) -> (copy: Self)
        requires
            offset + size + 1024 <= u64::MAX,
        ensures
            copy.well_formed(),
            copy == Self::started(offset, size),
            copy == (FileCopy {
                read_at: (offset - offset % 512) as u64,
                padding: (offset % 512) as u64,
                remaining_read: sectors_up(offset % 512 + size) as u64,
                remaining_output: size,
                written: 0,
            }),
            copy.read_at % 512 == 0,
            copy.remaining_read % 512 == 0,
    {
        let padding: u64 = offset % SECTOR;
        let needed: u64 = padding + size;
        FileCopy {
            read_at: offset - padding,
            padding,
            remaining_read: ((needed + 511) / SECTOR) * SECTOR,
            remaining_output: size,
            written: 0,
        }
    }

    /// Says how many bytes to read next, or `None` where the copy is done or cancelled.
    pub fn next(&self, cancelled: bool) -> (want: Option<usize>)
        requires
            self.well_formed(),
        ensures
            want == (if cancelled || self.wanted() == 0 {
                None::<usize>
            } else {
                Some(self.wanted() as usize)
            }),
    {
        if cancelled || self.remaining_output == 0 {
            return None;
        }
        let want: u64 = if self.remaining_read <= COPY_CHUNK {
            self.remaining_read
        } else {
            COPY_CHUNK
        };
        Some(want as usize)
    }

    /// Takes note of `count` bytes read, and says which part of them goes to the file.
    pub fn take(&mut self, count: usize) -> (part: CopyPart)
        requires
            old(self).well_formed(),
            count <= old(self).wanted(),
        ensures
            final(self).well_formed(),
            *final(self) == old(self).after(count as int),
            part == old(self).part_of(count as int),
            part.skip + part.write <= count,
            final(self).written == old(self).written + part.write,
            final(self).remaining_output == old(self).remaining_output - part.write,
            final(self).read_at == old(self).read_at + count,
    {
        let skip: u64 = if self.padding <= count as u64 { self.padding } else { count as u64 };
        let left: u64 = count as u64 - skip;
        let write: u64 = if left <= self.remaining_output { left } else { self.remaining_output };
        self.read_at = self.read_at + count as u64;
        self.padding = self.padding - skip;
        self.remaining_read = self.remaining_read - count as u64;
        self.remaining_output = self.remaining_output - write;
        self.written = self.written + write;
        CopyPart { skip: skip as usize, write: write as usize }
    }
}

/// What a copy writes when it is fed faithfully from `source` and never cancelled.
pub open spec fn copied(source: Seq<u8>, copy: FileCopy) -> Seq<u8>
    decreases copy.remaining_read,
    when copy.well_formed()
{
    let data = walk_audio::read_of(source, copy.read_at as int, copy.wanted());
    if copy.wanted() == 0 || data.len() == 0 {
        Seq::empty()
    } else {
        let part = copy.part_of(data.len() as int);
        data.subrange(part.skip as int, part.skip + part.write) + copied(
            source,
            copy.after(data.len() as int),
        )
    }
}

/// Reads of a device keep to its sectors: every read starts at a border and takes whole sectors, 64
/// KB at most, for as long as the device gives whole sectors.
pub proof fn law_copies_read_whole_sectors(offset: u64, size: u64, copy: FileCopy, count: int)
    requires
        offset + size + 1024 <= u64::MAX,
        copy == FileCopy::started(offset, size) || (copy.read_at % 512 == 0 && copy.remaining_read
            % 512 == 0 && copy.well_formed()),
        0 <= count <= copy.wanted(),
        count % 512 == 0,
    ensures
        copy.read_at % 512 == 0,
        copy.wanted() % 512 == 0,
        copy.wanted() <= 65_536,
        copy.wanted() > 0 <==> copy.remaining_output > 0,
        copy.after(count).read_at % 512 == 0,
        copy.after(count).remaining_read % 512 == 0,
        copy.after(count).well_formed(),
{
}

/// The copy in the end, when it is fed faithfully from `source` and never cancelled.
pub open spec fn finished(source: Seq<u8>, copy: FileCopy) -> FileCopy
    decreases copy.remaining_read,
    when copy.well_formed()
{
    let data = walk_audio::read_of(source, copy.read_at as int, copy.wanted());
    if copy.wanted() == 0 || data.len() == 0 {
        copy
    } else {
        finished(source, copy.after(data.len() as int))
    }
}

/// The bytes counted are the bytes that went to the file, and what is counted and what is missing
/// make up the file at every moment.
pub proof fn law_copies_count_what_they_write(source: Seq<u8>, copy: FileCopy)
    requires
        copy.well_formed(),
    ensures
        ({
            let last = finished(source, copy);
            &&& last.written == copy.written + copied(source, copy).len()
            &&& last.written + last.remaining_output == copy.written + copy.remaining_output
        }),
    decreases copy.remaining_read,
{
    let data = walk_audio::read_of(source, copy.read_at as int, copy.wanted());
    if copy.wanted() != 0 && data.len() != 0 {
        law_copies_count_what_they_write(source, copy.after(data.len() as int));
    }
}

/// A file that the source holds counts with its size, and so as recovered. Of one that the source
/// cuts off, as many bytes count as there are.
pub proof fn law_files_count_with_what_the_source_holds(source: Seq<u8>, offset: u64, size: u64)
    requires
        offset + size + 1024 <= u64::MAX,
        source.len() <= u64::MAX,
    ensures
        finished(source, FileCopy::started(offset, size)).written == if offset + size
            <= source.len() {
            size as int
        } else if offset <= source.len() {
            source.len() - offset
        } else {
            0
        },
        copied(source, FileCopy::started(offset, size)) == walk_audio::read_of(
            source,
            offset as int,
            size as int,
        ),
{
    law_copies_count_what_they_write(source, FileCopy::started(offset, size));
    law_saved_bytes_are_the_found_bytes(source, offset, size);
}

/// A saved file holds exactly the bytes of the source that it was found in, as far as the source
/// goes: nothing of its neighbours, and nothing missing.
pub proof fn law_saved_bytes_are_the_found_bytes(source: Seq<u8>, offset: u64, size: u64)
    requires
        offset + size + 1024 <= u64::MAX,
        source.len() <= u64::MAX,
    ensures
        copied(
            source,
            FileCopy {
                read_at: (offset - offset % 512) as u64,
                padding: (offset % 512) as u64,
                remaining_read: sectors_up(offset % 512 + size) as u64,
                remaining_output: size,
                written: 0,
            },
        ) == walk_audio::read_of(source, offset as int, size as int),
{
    let copy = FileCopy {
        read_at: (offset - offset % 512) as u64,
        padding: (offset % 512) as u64,
        remaining_read: sectors_up(offset % 512 + size) as u64,
        remaining_output: size,
        written: 0,
    };
    lemma_rest_is_copied(source, copy);
}

proof fn lemma_rest_is_copied(source: Seq<u8>, copy: FileCopy)
    requires
        copy.well_formed(),
        source.len() <= u64::MAX,
    ensures
        copied(source, copy) == walk_audio::read_of(
            source,
            copy.read_at + copy.padding,
            copy.remaining_output as int,
        ),
    decreases copy.remaining_read,
{
    let data = walk_audio::read_of(source, copy.read_at as int, copy.wanted());
    let all = walk_audio::read_of(
        source,
        copy.read_at + copy.padding,
        copy.remaining_output as int,
    );
    if copy.wanted() == 0 || data.len() == 0 {
        assert(all =~= Seq::empty());
    } else {
        let count = data.len() as int;
        let part = copy.part_of(count);
        let rest = copy.after(count);
        lemma_rest_is_copied(source, rest);
        let tail = walk_audio::read_of(
            source,
            rest.read_at + rest.padding,
            rest.remaining_output as int,
        );
        assert(all =~= data.subrange(part.skip as int, part.skip + part.write) + tail);
    }
}

/// Result of a recovery.
pub struct RecoveryResult {
    pub recovered: u64,
    /// Files that were saved in part: the source ended early, or the user cancelled.
    pub truncated: u64,
    pub failed: u64,
    pub total_bytes: u64,
    /// The user cancelled before the end. What was saved is good.
    pub cancelled: bool,
    pub output_dir: String,
    /// The first problems, each with the name of its file.
    pub errors: Vec<String>,
}

/// A recovery under way.
pub struct Recovery {
    /// Number of files to save.
    pub count: usize,
    /// Files turned to so far.
    pub turned: usize,
    pub recovered: u64,
    pub truncated: u64,
    pub failed: u64,
    pub total_bytes: u64,
    /// The user cancelled between two files.
    pub stopped: bool,
    pub errors: Vec<String>,
}

/// Message for a file that was saved in part.
pub open spec fn truncated_message(file: FoundFile, written: int) -> Seq<char> {
    found::filename_of(file) + ": truncado, se escribieron "@ + text::decimal(written as nat)
        + " de "@ + text::decimal(file.size as nat) + " bytes esperados"@
}

/// Message for a file that could not be saved.
pub open spec fn failed_message(file: FoundFile, cause: Seq<char>) -> Seq<char> {
    found::filename_of(file) + ": "@ + cause
}

/// The messages kept once another one came up.
pub open spec fn kept_with(errors: Seq<Seq<char>>, message: Seq<char>) -> Seq<Seq<char>> {
    if errors.len() < MAX_ERRORS_KEPT { errors.push(message) } else { errors }
}

/// How many messages are kept of so many problems.
pub open spec fn kept_count(problems: int) -> int {
    if problems <= MAX_ERRORS_KEPT { problems } else { MAX_ERRORS_KEPT as int }
}

/// How the files of a recovery came out.
pub struct Tally {
    pub recovered: int,
    pub truncated: int,
    pub failed: int,
    pub bytes: int,
    pub messages: int,
}

impl Tally {
    /// With a file of `size` bytes of which `written` were saved.
    pub open spec fn with_written(self, size: int, written: int) -> Tally {
        let partial = written != 0 && written != size;
        Tally {
            recovered: self.recovered + if written != 0 && !partial { 1int } else { 0int },
            truncated: self.truncated + if partial { 1int } else { 0int },
            failed: self.failed,
            bytes: self.bytes + written,
            messages: if partial { kept_count(self.truncated + self.failed + 1) } else { self.messages },
        }
    }

    /// With a file that could not be saved.
    pub open spec fn with_failed(self) -> Tally {
        Tally {
            failed: self.failed + 1,
            messages: kept_count(self.truncated + self.failed + 1),
            ..self
        }
    }
}

impl Recovery {
    /// How the files came out so far.
    pub open spec fn tally(self) -> Tally {
        Tally {
            recovered: self.recovered as int,
            truncated: self.truncated as int,
            failed: self.failed as int,
            bytes: self.total_bytes as int,
            messages: self.errors@.len() as int,
        }
    }

    /// Every file turned to counts once at most, and the first problems each left a message.
    pub open spec fn well_formed(self) -> bool {
        &&& self.turned <= self.count
        &&& self.recovered + self.truncated + self.failed <= self.turned
        &&& self.errors@.len() == kept_count(self.truncated + self.failed)
    }

    /// Starts to recover so many files.
    pub fn new(count: usize) -> (recovery: Self)
        ensures
            recovery.well_formed(),
            recovery.count == count,
            recovery.turned == 0,
            recovery.recovered == 0,
            recovery.truncated == 0,
            recovery.failed == 0,
            recovery.total_bytes == 0,
            !recovery.stopped,
            recovery.errors@.len() == 0,
    {
        Recovery {
            count,
            turned: 0,
            recovered: 0,
            truncated: 0,
            failed: 0,
            total_bytes: 0,
            stopped: false,
            errors: Vec::new(),
        }
    }

    /// Turns to the next file: returns its position, or `None` where there is none left or the
    /// user cancelled.
    pub fn next(&mut self, cancelled: bool) -> (position: Option<usize>)
        requires
            old(self).well_formed(),
        ensures
            final(self).well_formed(),
            if old(self).turned >= old(self).count {
                position is None && *final(self) == *old(self)
            } else if cancelled {
                position is None && *final(self) == (Recovery { stopped: true, ..*old(self) })
            } else {
                position == Some(old(self).turned) && *final(self) == (Recovery {
                    turned: (old(self).turned + 1) as usize,
                    ..*old(self)
                })
            },
    {
        if self.turned >= self.count {
            return None;
        }
        if cancelled {
            self.stopped = true;
            return None;
        }
        let position: usize = self.turned;
        self.turned = self.turned + 1;
        Some(position)
    }

    fn keep(&mut self, message: String)
        requires
            old(self).errors@.len() <= MAX_ERRORS_KEPT,
        ensures
            text::texts(final(self).errors@) == kept_with(text::texts(old(self).errors@), message@),
            final(self).errors@.len() == (if old(self).errors@.len() < MAX_ERRORS_KEPT {
                old(self).errors@.len() + 1
            } else {
                old(self).errors@.len()
            }),
            *final(self) == (Recovery { errors: final(self).errors, ..*old(self) }),
    {
        if self.errors.len() < MAX_ERRORS_KEPT {
            self.errors.push(message);
        }
        assert(text::texts(self.errors@) =~= kept_with(text::texts(old(self).errors@), message@));
    }

    /// Takes note of a file of which `written` bytes were saved. Returns whether the saved file is
    /// empty and should be removed. A file saved in part never counts as recovered.
    pub fn note_written(&mut self, file: &FoundFile, written: u64) -> (remove: bool)
        requires
            old(self).well_formed(),
            old(self).recovered + old(self).truncated + old(self).failed < old(self).turned,
            old(self).total_bytes + written <= u64::MAX,
        ensures
            final(self).well_formed(),
            remove == (written == 0),
            final(self).count == old(self).count,
            final(self).turned == old(self).turned,
            final(self).stopped == old(self).stopped,
            final(self).failed == old(self).failed,
            final(self).total_bytes == old(self).total_bytes + written,
            final(self).recovered == old(self).recovered + (if written != 0 && written
                == file.size {
                1int
            } else {
                0int
            }),
            final(self).truncated == old(self).truncated + (if written != 0 && written
                != file.size {
                1int
            } else {
                0int
            }),
            text::texts(final(self).errors@) == (if written != 0 && written != file.size {
                kept_with(text::texts(old(self).errors@), truncated_message(*file, written as int))
            } else {
                text::texts(old(self).errors@)
            }),
            old(self).tally().with_written(file.size as int, written as int)
                == final(self).tally(),
    {
        self.total_bytes = self.total_bytes + written;
        if written == 0 {
            return true;
        }
        if written != file.size {
            self.truncated = self.truncated + 1;
            let mut message = file.recovered_filename();
            message.append(": truncado, se escribieron ");
            text::push_decimal(&mut message, written);
            message.append(" de ");
            text::push_decimal(&mut message, file.size);
            message.append(" bytes esperados");
            self.keep(message);
        } else {
            self.recovered = self.recovered + 1;
        }
        false
    }

    /// Takes note of a file that could not be saved.
    pub fn note_failed(&mut self, file: &FoundFile, cause: &str)
        requires
            old(self).well_formed(),
            old(self).recovered + old(self).truncated + old(self).failed < old(self).turned,
        ensures
            final(self).well_formed(),
            *final(self) == (Recovery {
                failed: (old(self).failed + 1) as u64,
                errors: final(self).errors,
                ..*old(self)
            }),
            text::texts(final(self).errors@) == kept_with(
                text::texts(old(self).errors@),
                failed_message(*file, cause@),
            ),
            old(self).tally().with_failed() == final(self).tally(),
    {
        self.failed = self.failed + 1;
        let mut message = file.recovered_filename();
        message.append(": ");
        message.append(cause);
        self.keep(message);
    }

    /// The result of the recovery. It counts as cancelled where something was left undone:
    /// cancelling while the last file was completed loses nothing.
    pub open spec fn result_of(self, cancel_seen: bool, output_dir: String) -> RecoveryResult {
        RecoveryResult {
            recovered: self.recovered,
            truncated: self.truncated,
            failed: self.failed,
            total_bytes: self.total_bytes,
            cancelled: self.stopped || (cancel_seen && self.recovered + self.truncated + self.failed
                < self.count),
            output_dir: output_dir,
            errors: self.errors,
        }
    }

    /// Ends the recovery.
    pub fn finish(self, cancel_seen: bool, output_dir: String) -> (result: RecoveryResult)
        requires
            self.well_formed(),
        ensures
            result == self.result_of(cancel_seen, output_dir),
    {
        let done: u64 = self.recovered + self.truncated + self.failed;
        RecoveryResult {
            recovered: self.recovered,
            truncated: self.truncated,
            failed: self.failed,
            total_bytes: self.total_bytes,
            cancelled: self.stopped || (cancel_seen && done < self.count as u64),
            output_dir,
            errors: self.errors,
        }
    }
}

/// Line with the problems that were kept, and how many more there were.
pub open spec fn detail_line(problems: nat, errors: Seq<Seq<char>>) -> Seq<char> {
    if problems > 0 && errors.len() > 0 {
        "\n     Detalle: "@ + text::joined(errors, " | "@) + if problems > errors.len() {
            " (+"@ + text::decimal((problems - errors.len()) as nat) + " más)"@
        } else {
            ""@
        }
    } else {
        ""@
    }
}

/// Text that sums a recovery up. A cancelled one says so first.
pub open spec fn summary_of(result: RecoveryResult) -> Seq<char> {
    let cancelled = if result.cancelled {
        "  ⏹️  Cancelaste la recuperación. Los archivos que alcanzó a guardar están abajo y se pueden abrir;\n     los que faltaban quedaron sin recuperar.\n"@
    } else {
        ""@
    };
    let truncated = if result.truncated > 0 {
        "\n  ⚠️  Truncados (incompletos): "@ + text::decimal(result.truncated as nat)
    } else {
        ""@
    };
    cancelled + "  ✅ Archivos recuperados: "@ + text::decimal(result.recovered as nat)
        + "\n  ❌ Fallidos: "@ + text::decimal(result.failed as nat) + truncated + detail_line(
        (result.failed + result.truncated) as nat,
        text::texts(result.errors@),
    ) + "\n  💾 Datos recuperados: "@ + util::size_text(result.total_bytes as nat)
        + "\n  📂 Ubicación: "@ + result.output_dir@
}

impl RecoveryResult {
    /// Text that sums this recovery up.
    pub fn summary(&self) -> (shown: String)
        requires
            self.failed + self.truncated <= u64::MAX,
        ensures
            shown@ == summary_of(*self),
    {
        proof {
            reveal_strlit("");
        }
        let mut shown = text::owned(
            if self.cancelled {
                "  ⏹️  Cancelaste la recuperación. Los archivos que alcanzó a guardar están abajo y se pueden abrir;\n     los que faltaban quedaron sin recuperar.\n"
            } else {
                ""
            },
        );
        shown.append("  ✅ Archivos recuperados: ");
        text::push_decimal(&mut shown, self.recovered);
        shown.append("\n  ❌ Fallidos: ");
        text::push_decimal(&mut shown, self.failed);
        let ghost head = shown@;
        if self.truncated > 0 {
            shown.append("\n  ⚠️  Truncados (incompletos): ");
            text::push_decimal(&mut shown, self.truncated);
        }
        let ghost counted = shown@;
        let problems: u64 = self.failed + self.truncated;
        if problems > 0 && self.errors.len() > 0 {
            shown.append("\n     Detalle: ");
            text::push_joined(&mut shown, &self.errors, " | ");
            if problems > self.errors.len() as u64 {
                shown.append(" (+");
                text::push_decimal(&mut shown, problems - self.errors.len() as u64);
                shown.append(" más)");
            }
        }
        assert(shown@ =~= counted + detail_line(problems as nat, text::texts(self.errors@)));
        shown.append("\n  💾 Datos recuperados: ");
        shown.append(util::format_size(self.total_bytes).as_str());
        shown.append("\n  📂 Ubicación: ");
        shown.append(self.output_dir.as_str());
        assert(shown@ =~= summary_of(*self));
        shown
    }
}

/// What the outside sees of a recovery is what its result says: the files counted are the sum of
/// the three counts, and the bytes are those written.
pub proof fn law_progress_is_what_the_result_counts(
    state: RecoveryState,
    recovery: Recovery,
    cancel_seen: bool,
    output_dir: String,
)
    requires
        state.shows(recovery),
    ensures
        ({
            let result = recovery.result_of(cancel_seen, output_dir);
            &&& state.files == result.recovered + result.truncated + result.failed
            &&& state.bytes == result.total_bytes
        }),
{
}

/// Folders are told apart by category, and each has a name.
pub proof fn law_every_category_has_its_folder(a: FileCategory, b: FileCategory)
    ensures
        folder_of(a) == folder_of(b) <==> a == b,
        folder_of(a).len() > 0,
{
    reveal_strlit("fotos");
    reveal_strlit("videos");
    reveal_strlit("audios");
    reveal_strlit("documentos");
    assert("fotos"@.len() == 5 && "videos"@.len() == 6 && "audios"@.len() == 6
        && "documentos"@.len() == 10);
    assert("videos"@[0] == 'v' && "audios"@[0] == 'a');
}

/// No file is counted twice: the three counts together never exceed the number of files.
pub proof fn law_files_are_counted_once(recovery: Recovery)
    requires
        recovery.well_formed(),
    ensures
        recovery.recovered + recovery.truncated + recovery.failed <= recovery.count,
{
}

/// A file counts once, and as one thing: as recovered where all of its bytes were saved, as saved in
/// part where some were, as failed where it could not be saved, and not at all where there was nothing
/// to save. Every byte that was saved counts, whatever became of its file.
pub proof fn law_files_count_as_one_thing(tally: Tally, size: int, written: int)
    requires
        0 <= written <= size,
    ensures
        ({
            let saved = tally.with_written(size, written);
            &&& saved.recovered + saved.truncated + saved.failed == tally.recovered
                + tally.truncated + tally.failed + if written > 0 { 1int } else { 0int }
            &&& saved.recovered > tally.recovered <==> written == size && size > 0
            &&& saved.truncated > tally.truncated <==> 0 < written < size
            &&& saved.failed == tally.failed
            &&& saved.bytes == tally.bytes + written
        }),
        ({
            let lost = tally.with_failed();
            &&& lost.failed == tally.failed + 1
            &&& lost.recovered == tally.recovered
            &&& lost.truncated == tally.truncated
            &&& lost.bytes == tally.bytes
        }),
{
}

/// The messages kept of all those that came up, one after the other.
pub open spec fn kept_of(messages: Seq<Seq<char>>) -> Seq<Seq<char>>
    decreases messages.len(),
{
    if messages.len() == 0 {
        messages
    } else {
        kept_with(kept_of(messages.drop_last()), messages.last())
    }
}

/// The first three messages are kept, in their order, and no others.
pub proof fn law_the_first_three_problems_are_kept(messages: Seq<Seq<char>>)
    ensures
        kept_of(messages) == messages.take(
            if messages.len() <= 3 { messages.len() as int } else { 3 },
        ),
    decreases messages.len(),
{
    if messages.len() > 0 {
        let front = messages.drop_last();
        law_the_first_three_problems_are_kept(front);
        if messages.len() <= 3 {
            assert(front.take(front.len() as int).push(messages.last()) =~= messages);
            assert(messages.take(messages.len() as int) =~= messages);
        } else {
            assert(front.take(3) =~= messages.take(3));
        }
    } else {
        assert(messages.take(0) =~= messages);
    }
}

/// A recovery counts as cancelled only where something was left undone: it was stopped between two
/// files, or the user cancelled and not every file was counted. Cancelling behind the last file is no
/// cancelling.
pub proof fn law_cancelled_recoveries_left_something_undone(
    recovery: Recovery,
    cancel_seen: bool,
    output_dir: String,
)
    ensures
        ({
            let result = recovery.result_of(cancel_seen, output_dir);
            let counted = result.recovered + result.truncated + result.failed;
            &&& result.cancelled ==> recovery.stopped || cancel_seen
            &&& !recovery.stopped && counted >= recovery.count ==> !result.cancelled
            &&& cancel_seen && counted < recovery.count ==> result.cancelled
            &&& recovery.stopped ==> result.cancelled
            &&& result.errors == recovery.errors
            &&& result.output_dir == output_dir
        }),
{
}

/// Photos go to `fotos`, videos to `videos`, audio to `audios` and documents to `documentos`.
pub proof fn law_folders_are_named_after_their_category(category: FileCategory)
    ensures
        folder_of(category).first() == match category {
            FileCategory::Photo => 'f',
            FileCategory::Video => 'v',
            FileCategory::Audio => 'a',
            FileCategory::Document => 'd',
        },
        folder_of(category).last() == 's',
{
    reveal_strlit("fotos");
    reveal_strlit("videos");
    reveal_strlit("audios");
    reveal_strlit("documentos");
    assert("fotos"@ =~= seq!['f', 'o', 't', 'o', 's']);
    assert("videos"@ =~= seq!['v', 'i', 'd', 'e', 'o', 's']);
    assert("audios"@ =~= seq!['a', 'u', 'd', 'i', 'o', 's']);
    assert("documentos"@ =~= seq!['d', 'o', 'c', 'u', 'm', 'e', 'n', 't', 'o', 's']);
}

} // verus!
