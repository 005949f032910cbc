//! The decisions of the command line.

use vstd::prelude::*;

use crate::clone::{self, CloneState};
use crate::parse;
use crate::recovery::{self, RecoveryState};
use crate::scanner::assemble::ScanResult;
use crate::scanner::found::{self, FoundFile};
use crate::scanner::progress::{self, ScanState};
use crate::signatures::FileCategory;
use crate::text;
use crate::ui::menus::{self, ScanConfig};
use crate::util;

verus! {

broadcast use vstd::slice::group_slice_axioms;

/// Arguments of the command line.
pub struct CliArgs {
    /// Disk or image to read.
    pub source: Option<String>,
    /// Look for photos.
    pub fotos: bool,
    /// Look for videos.
    pub videos: bool,
    /// Look for audio.
    pub audio: bool,
    /// Look for documents.
    pub documentos: bool,
    /// Folder to save to.
    pub output: Option<String>,
    /// Do not look for a newer version.
    pub no_update: bool,
}

/// The category by itself, or nothing.
pub open spec fn one_if(wanted: bool, category: FileCategory) -> Seq<FileCategory> {
    if wanted {
        seq![category]
    } else {
        Seq::empty()
    }
}

/// The categories that were asked for. Who asks for none wants all.
pub open spec fn categories_of(args: CliArgs) -> Seq<FileCategory> {
    if !args.fotos && !args.videos && !args.audio && !args.documentos {
        seq![
            FileCategory::Photo,
            FileCategory::Video,
            FileCategory::Audio,
            FileCategory::Document,
        ]
    } else {
        one_if(args.fotos, FileCategory::Photo) + one_if(args.videos, FileCategory::Video)
            + one_if(args.audio, FileCategory::Audio) + one_if(
            args.documentos,
            FileCategory::Document,
        )
    }
}

/// The arguments make sense: what to look for and where to save say nothing without a source.
pub open spec fn is_valid(args: CliArgs) -> bool {
    args.source is Some || !(args.fotos || args.videos || args.audio || args.documentos
        || args.output is Some)
}

impl CliArgs {
    /// The scan that the arguments ask for. `output_dir` is the folder to save to, in full.
    pub fn into_scan_config(self, source: String, output_dir: String) -> (config: ScanConfig)
        ensures
            config.source_path@ == source@,
            config.output_dir@ == output_dir@,
            config.categories@ == categories_of(self),
    {
        let all = !self.fotos && !self.videos && !self.audio && !self.documentos;
        let mut categories: Vec<FileCategory> = Vec::new();
        if all || self.fotos {
            categories.push(FileCategory::Photo);
        }
        if all || self.videos {
            categories.push(FileCategory::Video);
        }
        if all || self.audio {
            categories.push(FileCategory::Audio);
        }
        if all || self.documentos {
            categories.push(FileCategory::Document);
        }
        assert(categories@ =~= categories_of(self));
        ScanConfig { source_path: source, output_dir, categories }
    }

    /// The folder to save to, as it was given, or one named after the time.
    pub fn chosen_output(&self, stamp: &str) -> (folder: String)
        ensures
            folder@ == (match self.output {
                Some(folder) => folder@,
                None => "RecupeGhost_"@ + stamp@,
            }),
    {
        match &self.output {
            Some(folder) => folder.clone(),
            None => menus::default_output_name(stamp),
        }
    }

    /// Whether the arguments make sense.
    pub fn validate(&self) -> (ok: bool)
        ensures
            ok == is_valid(*self),
    {
        let has_flags = self.fotos || self.videos || self.audio || self.documentos
            || self.output.is_some();
        self.source.is_some() || !has_flags
    }

    /// Whether to look for a newer version: only with somebody in front of the screen who did not
    /// ask for a certain source.
    pub fn checks_for_updates(&self, is_tty: bool) -> (yes: bool)
        ensures
            yes == (!self.no_update && self.source is None && is_tty),
    {
        !(self.no_update || self.source.is_some() || !is_tty)
    }

    /// How the program runs.
    pub fn run_mode(&self, stdin_is_tty: bool) -> (mode: RunMode)
        ensures
            mode == (if self.source is Some {
                RunMode::Batch
            } else if stdin_is_tty {
                RunMode::Interactive
            } else {
                RunMode::NoTerminal
            }),
    {
        if self.source.is_some() {
            RunMode::Batch
        } else if stdin_is_tty {
            RunMode::Interactive
        } else {
            RunMode::NoTerminal
        }
    }
}

/// How the program runs.
#[derive(Debug, Clone, Copy, PartialEq, Eq, Structural)]
pub enum RunMode {
    /// Straight through, on the source that was given.
    Batch,
    /// By menus.
    Interactive,
    /// Not at all: there is no source, and nobody to ask.
    NoTerminal,
}

/// Whether a source can be tried: a raw device without looking, anything else if it is there.
pub fn source_is_usable(source_path: &str, is_there: bool) -> (yes: bool)
    ensures
        yes == (util::names_device(source_path@) || is_there),
{
    util::is_physical_device(source_path) || is_there
}

/// What a warning about the output means for a scan without menus.
#[derive(Debug, Clone, Copy, PartialEq, Eq, Structural)]
pub enum BatchWarning {
    /// There is none: go on.
    GoOn,
    /// Ask whether to go on.
    Ask,
    /// Nobody can be asked: go on, and say so.
    GoOnUnasked,
}

/// What a warning about the output means for a scan without menus.
pub fn batch_warning(warned: bool, is_tty: bool) -> (step: BatchWarning)
    ensures
        step == (if !warned {
            BatchWarning::GoOn
        } else if is_tty {
            BatchWarning::Ask
        } else {
            BatchWarning::GoOnUnasked
        }),
{
    if !warned {
        BatchWarning::GoOn
    } else if is_tty {
        BatchWarning::Ask
    } else {
        BatchWarning::GoOnUnasked
    }
}

/// Exit code of a program that was interrupted.
pub const INTERRUPTED: i32 = 130;

/// What an interrupt does: it asks the scan, the recovery or the clone that is running to stop,
/// which keeps what there is so far, and ends the program where nothing is running. Returns the
/// exit code where the program ends.
pub fn interrupted(
    scan: &mut ScanState,
    saving: &mut RecoveryState,
    copy: &mut CloneState,
) -> (exit: Option<i32>)
    ensures
        exit == (if old(scan).in_progress || old(saving).in_progress || old(copy).in_progress {
            None
        } else {
            Some(INTERRUPTED)
        }),
        *final(scan) == (ScanState {
            cancel_requested: old(scan).cancel_requested || old(scan).in_progress,
            ..*old(scan)
        }),
        *final(saving) == (RecoveryState {
            cancel_requested: old(saving).cancel_requested || old(saving).in_progress,
            ..*old(saving)
        }),
        *final(copy) == (CloneState {
            cancel_requested: old(copy).cancel_requested || old(copy).in_progress,
            ..*old(copy)
        }),
{
    let mut exit: Option<i32> = Some(INTERRUPTED);
    if progress::is_scan_in_progress(scan) {
        progress::request_cancel(scan);
        exit = None;
    }
    if recovery::is_recovery_in_progress(saving) {
        recovery::request_cancel(saving);
        exit = None;
    }
    if clone::is_clone_in_progress(copy) {
        clone::request_cancel(copy);
        exit = None;
    }
    exit
}

/// How a scan came out.
#[derive(Debug, Clone, Copy, PartialEq, Eq, Structural)]
pub enum ScanOutcome {
    /// There are files to recover.
    Found,
    /// Cancelled before anything was found.
    CancelledEmpty,
    /// Nothing was found.
    NothingFound,
}

/// How a scan came out.
pub fn scan_outcome(result: &ScanResult) -> (outcome: ScanOutcome)
    ensures
        outcome == (if result.found_files@.len() > 0 {
            ScanOutcome::Found
        } else if result.cancelled {
            ScanOutcome::CancelledEmpty
        } else {
            ScanOutcome::NothingFound
        }),
{
    if result.found_files.len() > 0 {
        ScanOutcome::Found
    } else if result.cancelled {
        ScanOutcome::CancelledEmpty
    } else {
        ScanOutcome::NothingFound
    }
}

/// Files of a scan that are listed one by one.
pub const LISTED_FILES: usize = 20;

/// The lines that list the files of a scan: the first ones, and how many more there are.
pub open spec fn listing_of(files: Seq<FoundFile>) -> Seq<Seq<char>> {
    if files.len() <= LISTED_FILES {
        files.map_values(|file: FoundFile| "  "@ + found::summary_of(file))
    } else {
        files.take(LISTED_FILES as int).map_values(
            |file: FoundFile| "  "@ + found::summary_of(file),
        ).push(
            "  ... y "@ + text::decimal((files.len() - LISTED_FILES) as nat) + " archivos más"@,
        )
    }
}

/// The lines that list the files of a scan, those that can be trusted first.
pub fn found_listing(found_files: &[FoundFile]) -> (lines: Vec<String>)
    ensures
        text::texts(lines@) == listing_of(found::presented(found_files@)),
{
    let files = found::in_display_order(found_files);
    let mut lines: Vec<String> = Vec::new();
    let count: usize = files.len();
    let shown: usize = if count <= LISTED_FILES { count } else { LISTED_FILES };
    let ghost wanted = files@.take(shown as int).map_values(
        |file: FoundFile| "  "@ + found::summary_of(file),
    );
    let mut i: usize = 0;
    while i < shown
        invariant
            i <= shown <= files@.len(),
            wanted == files@.take(shown as int).map_values(
                |file: FoundFile| "  "@ + found::summary_of(file),
            ),
            text::texts(lines@) =~= wanted.take(i as int),
        decreases shown - i,
    {
        let mut line = text::owned("  ");
        line.append(files[i].friendly_summary().as_str());
        let ghost before = lines@;
        lines.push(line);
        assert(text::texts(lines@) =~= text::texts(before).push(line@));
        assert(wanted[i as int] == line@);
        i = i + 1;
    }
    assert(text::texts(lines@) =~= wanted);
    if count > LISTED_FILES {
        let mut line = text::owned("  ... y ");
        text::push_decimal(&mut line, (count - LISTED_FILES) as u64);
        line.append(" archivos más");
        let ghost before = lines@;
        lines.push(line);
        assert(text::texts(lines@) =~= text::texts(before).push(line@));
    } else {
        assert(files@.take(shown as int) =~= files@);
    }
    assert(text::texts(lines@) =~= listing_of(files@));
    lines
}

/// What stands in one of two lists stands in both put together, and nothing else does.
proof fn lemma_both_lists(a: Seq<FileCategory>, b: Seq<FileCategory>, category: FileCategory)
    ensures
        (a + b).contains(category) <==> a.contains(category) || b.contains(category),
{
    if a.contains(category) {
        let i = choose|i: int| 0 <= i < a.len() && a[i] == category;
        assert((a + b)[i] == category);
    }
    if b.contains(category) {
        let i = choose|i: int| 0 <= i < b.len() && b[i] == category;
        assert((a + b)[a.len() + i] == category);
    }
}

proof fn lemma_one_if(wanted: bool, one: FileCategory, category: FileCategory)
    ensures
        one_if(wanted, one).contains(category) <==> wanted && category == one,
{
    if wanted {
        assert(one_if(wanted, one)[0] == one);
    }
}

/// Every category that was asked for is looked for, and no other; asked for none, all are.
pub proof fn law_flags_choose_categories(args: CliArgs, category: FileCategory)
    ensures
        categories_of(args).contains(category) <==> {
            ||| !args.fotos && !args.videos && !args.audio && !args.documentos
            ||| args.fotos && category == FileCategory::Photo
            ||| args.videos && category == FileCategory::Video
            ||| args.audio && category == FileCategory::Audio
            ||| args.documentos && category == FileCategory::Document
        },
        categories_of(args).len() >= 1,
{
    let photos = one_if(args.fotos, FileCategory::Photo);
    let videos = one_if(args.videos, FileCategory::Video);
    let audio = one_if(args.audio, FileCategory::Audio);
    let documents = one_if(args.documentos, FileCategory::Document);
    if !args.fotos && !args.videos && !args.audio && !args.documentos {
        let list = categories_of(args);
        assert(list[0] == FileCategory::Photo);
        assert(list[1] == FileCategory::Video);
        assert(list[2] == FileCategory::Audio);
        assert(list[3] == FileCategory::Document);
    } else {
        lemma_one_if(args.fotos, FileCategory::Photo, category);
        lemma_one_if(args.videos, FileCategory::Video, category);
        lemma_one_if(args.audio, FileCategory::Audio, category);
        lemma_one_if(args.documentos, FileCategory::Document, category);
        lemma_both_lists(photos, videos, category);
        lemma_both_lists(photos + videos, audio, category);
        lemma_both_lists(photos + videos + audio, documents, category);
    }
}

/// Up to twenty files are listed, each on a line of its own and in their order; of more, the first
/// twenty are, and one more line tells how many are left.
pub proof fn law_the_first_twenty_files_are_listed(files: Seq<FoundFile>)
    ensures
        listing_of(files).len() == if files.len() <= 20 { files.len() } else { 21 },
        forall|i: int|
            0 <= i < files.len() && i < 20 ==> #[trigger] listing_of(files)[i] == "  "@
                + found::summary_of(files[i]),
        files.len() > 20 ==> exists|digits: Seq<char>|
            listing_of(files)[20] == "  ... y "@ + digits + " archivos más"@
                && #[trigger] parse::number_in(digits, files.len()) == Some(
                (files.len() - 20) as nat,
            ),
{
    if files.len() > 20 {
        let more = (files.len() - 20) as nat;
        parse::law_written_numbers_are_read_back(more, files.len());
        assert(parse::number_in(text::decimal(more), files.len()) == Some(more));
        assert(listing_of(files)[20] == "  ... y "@ + text::decimal(more) + " archivos más"@);
    }
}

/// Without a source, nothing may be asked for: neither a kind of file nor a folder to save to. With one
/// everything may.
pub proof fn law_flags_need_a_source(args: CliArgs)
    ensures
        args.source is Some ==> is_valid(args),
        args.source is None && args.fotos ==> !is_valid(args),
        args.source is None && args.videos ==> !is_valid(args),
        args.source is None && args.audio ==> !is_valid(args),
        args.source is None && args.documentos ==> !is_valid(args),
        args.source is None && args.output is Some ==> !is_valid(args),
        args.source is None && !args.fotos && !args.videos && !args.audio && !args.documentos
            && args.output is None ==> is_valid(args),
{
}

} // verus!
