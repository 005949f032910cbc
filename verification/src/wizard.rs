//! The window: a wizard that asks one question at a time, then scans and recovers.
//!
//! The state of the window and its transitions stand here; drawing it, running the work in the
//! background and asking the system are left to the program.

use vstd::prelude::*;

use crate::cli;
use crate::drives::{self, DriveInfo, DriveModel};
use crate::parse;
use crate::paths;
use crate::recovery::RecoveryResult;
use crate::scanner::assemble::ScanResult;
use crate::scanner::found::{self, FoundFile, Integrity};
use crate::signatures::FileCategory;
use crate::text;
use crate::util::{self, IoErrorKind};

verus! {

broadcast use vstd::slice::group_slice_axioms;

/// A question of the wizard.
#[derive(Debug, Clone, Copy, PartialEq, Eq, Structural)]
pub enum Step {
    /// Which disk or image to look through.
    Source,
    /// Which kinds of files to look for.
    Types,
    /// Where to save what is recovered.
    Output,
    /// Looking over the answers.
    Summary,
}

/// How many questions there are.
pub const STEP_COUNT: usize = 4;

/// Place of a question in the wizard.
pub open spec fn index_of(step: Step) -> int {
    match step {
        Step::Source => 0,
        Step::Types => 1,
        Step::Output => 2,
        Step::Summary => 3,
    }
}

/// The question before another one.
pub open spec fn step_before(step: Step) -> Option<Step> {
    match step {
        Step::Source => None,
        Step::Types => Some(Step::Source),
        Step::Output => Some(Step::Types),
        Step::Summary => Some(Step::Output),
    }
}

/// The question behind another one.
pub open spec fn step_after(step: Step) -> Option<Step> {
    match step {
        Step::Source => Some(Step::Types),
        Step::Types => Some(Step::Output),
        Step::Output => Some(Step::Summary),
        Step::Summary => None,
    }
}

impl Step {
    /// The question at this place.
    pub fn at(index: usize) -> (step: Option<Step>)
        ensures
            step matches Some(step) ==> index_of(step) == index,
            step is Some <==> index < STEP_COUNT,
    {
        match index {
            0 => Some(Step::Source),
            1 => Some(Step::Types),
            2 => Some(Step::Output),
            3 => Some(Step::Summary),
            _ => None,
        }
    }

    /// Name of the question in the bar at the top.
    pub fn label(self) -> (label: &'static str)
        ensures
            label@ == (match self {
                Step::Source => "Disco"@,
                Step::Types => "Tipos"@,
                Step::Output => "Guardar"@,
                Step::Summary => "Buscar"@,
            }),
    {
        match self {
            Step::Source => "Disco",
            Step::Types => "Tipos",
            Step::Output => "Guardar",
            Step::Summary => "Buscar",
        }
    }

    /// Place of the question in the wizard.
    pub fn index(self) -> (index: usize)
        ensures
            index == index_of(self),
    {
        match self {
            Step::Source => 0,
            Step::Types => 1,
            Step::Output => 2,
            Step::Summary => 3,
        }
    }

    /// The question before this one.
    pub fn prev(self) -> (step: Option<Step>)
        ensures
            step == step_before(self),
    {
        match self {
            Step::Source => None,
            Step::Types => Some(Step::Source),
            Step::Output => Some(Step::Types),
            Step::Summary => Some(Step::Output),
        }
    }
}

/// What the window shows.
#[derive(Debug, Clone, Copy, PartialEq, Eq, Structural)]
pub enum Phase {
    Setup(Step),
    Scanning,
    Results,
    Recovering,
    Done,
    Error,
}

/// What waits for an answer to the warning about the output.
#[derive(Debug, Clone, Copy, PartialEq, Eq, Structural)]
pub enum PendingAction {
    Scan,
    Recover,
}

/// What comes of a request to start something.
pub enum StartStep {
    /// A warning is on the screen: nothing starts.
    Ignored,
    /// An answer is missing; the window says which.
    Failed,
    /// The disk of the output has to be looked at first; this is the source.
    Check(String),
    /// Start, with this source.
    Start(String),
}

/// The state of the window.
pub struct Wizard {
    pub drives: Vec<DriveInfo>,
    pub selected_drive: usize,
    /// Image file written by hand; it goes before the disk from the list.
    pub manual_path: String,
    pub photos: bool,
    pub videos: bool,
    pub audio: bool,
    pub documents: bool,
    pub output_dir: String,
    /// Warning on the screen, and what waits for it.
    pub pending_warning: Option<(String, PendingAction)>,
    /// Source and output for which the user took the risk. It holds for this very pair only.
    pub same_device_accepted: Option<(String, String)>,
    pub phase: Phase,
    /// Source of the last scan.
    pub source: Option<String>,
    pub scan_result: Option<ScanResult>,
    pub recovery_result: Option<RecoveryResult>,
    pub error_msg: String,
    pub error_hint: Option<&'static str>,
}

/// Position of the first disk that can be taken out; the first disk of all where there is none.
pub open spec fn first_removable(disks: Seq<DriveModel>) -> int {
    if exists|i: int| is_first_removable(disks, i) {
        choose|i: int| is_first_removable(disks, i)
    } else {
        0
    }
}

/// The disk at this position is the first that can be taken out.
pub open spec fn is_first_removable(disks: Seq<DriveModel>, i: int) -> bool {
    &&& 0 <= i < disks.len()
    &&& disks[i].is_removable
    &&& forall|k: int| 0 <= k < i ==> !(#[trigger] disks[k]).is_removable
}

/// The disk to start from. The first of all is mostly that of the system, and mostly not meant.
pub fn preselected_drive(disks: &[DriveInfo]) -> (position: usize)
    ensures
        position == first_removable(drives::models(disks@)),
{
    let ghost all = drives::models(disks@);
    let mut i: usize = 0;
    while i < disks.len()
        invariant
            i <= disks@.len(),
            all == drives::models(disks@),
            forall|k: int| 0 <= k < i ==> !(#[trigger] all[k]).is_removable,
        decreases disks@.len() - i,
    {
        assert(all[i as int] == disks@[i as int].model());
        if disks[i].is_removable {
            proof {
                assert(is_first_removable(all, i as int));
                let other = choose|i: int| is_first_removable(all, i);
                assert(is_first_removable(all, other));
            }
            return i;
        }
        i = i + 1;
    }
    0
}

/// Label of a disk in the list.
pub fn drive_label(disk: &DriveInfo) -> (label: String)
    ensures
        label@ == (if disk.is_removable {
            disk.display_name@ + "  ·  Extraíble"@
        } else {
            disk.display_name@
        }),
{
    let mut label = disk.display_name.clone();
    if disk.is_removable {
        label.append("  ·  Extraíble");
    }
    label
}

impl Wizard {
    /// The window at the start.
    pub fn new(drives: Vec<DriveInfo>, output_dir: String) -> (wizard: Self)
        ensures
            wizard.drives == drives,
            wizard.selected_drive == first_removable(drives::models(drives@)),
            wizard.manual_path@ == ""@,
            wizard.photos && wizard.videos && wizard.audio && wizard.documents,
            wizard.output_dir == output_dir,
            wizard.pending_warning is None,
            wizard.same_device_accepted is None,
            wizard.phase == Phase::Setup(Step::Source),
            wizard.source is None,
            wizard.scan_result is None,
            wizard.recovery_result is None,
            wizard.error_msg@ == ""@,
            wizard.error_hint is None,
    {
        proof {
            reveal_strlit("");
            assert(""@ =~= Seq::<char>::empty());
        }
        let selected_drive: usize = preselected_drive(&drives);
        Wizard {
            drives,
            selected_drive,
            manual_path: String::new(),
            photos: true,
            videos: true,
            audio: true,
            documents: true,
            output_dir,
            pending_warning: None,
            same_device_accepted: None,
            phase: Phase::Setup(Step::Source),
            source: None,
            scan_result: None,
            recovery_result: None,
            error_msg: String::new(),
            error_hint: None,
        }
    }

    /// Takes the disks that were found when the user had them looked for again.
    pub fn replace_drives(&mut self, drives: Vec<DriveInfo>)
        ensures
            final(self).drives == drives,
            final(self).selected_drive == first_removable(drives::models(drives@)),
            (Wizard {
                drives: old(self).drives,
                selected_drive: old(self).selected_drive,
                ..*final(self)
            }) == *old(self),
    {
        self.selected_drive = preselected_drive(&drives);
        self.drives = drives;
    }

    /// The categories that are ticked.
    pub open spec fn ticked(self) -> Seq<FileCategory> {
        cli::one_if(self.photos, FileCategory::Photo) + cli::one_if(
            self.videos,
            FileCategory::Video,
        ) + cli::one_if(self.audio, FileCategory::Audio) + cli::one_if(
            self.documents,
            FileCategory::Document,
        )
    }

    /// The categories that are ticked.
    pub fn selected_categories(&self) -> (categories: Vec<FileCategory>)
        ensures
            categories@ == self.ticked(),
    {
        let mut categories: Vec<FileCategory> = Vec::new();
        if self.photos {
            categories.push(FileCategory::Photo);
        }
        if self.videos {
            categories.push(FileCategory::Video);
        }
        if self.audio {
            categories.push(FileCategory::Audio);
        }
        if self.documents {
            categories.push(FileCategory::Document);
        }
        assert(categories@ =~= self.ticked());
        categories
    }

    /// An image file was written by hand.
    pub open spec fn has_manual_path(self) -> bool {
        parse::trimmed(self.manual_path@).len() > 0
    }

    /// The source that is chosen: the path written by hand, otherwise the disk from the list.
    pub open spec fn chosen_source(self) -> Option<Seq<char>> {
        if self.has_manual_path() {
            Some(parse::trimmed(self.manual_path@))
        } else if self.selected_drive < self.drives@.len() {
            Some(self.drives@[self.selected_drive as int].path@)
        } else {
            None
        }
    }

    /// The source that is chosen.
    pub fn resolve_source(&self) -> (source: Option<String>)
        ensures
            drives::optional(source) == self.chosen_source(),
    {
        let all = text::letters(self.manual_path.as_str());
        let manual = parse::trim(&all);
        if manual.len() > 0 {
            return Some(text::text_of(manual));
        }
        if self.selected_drive < self.drives.len() {
            Some(self.drives[self.selected_drive].path.clone())
        } else {
            None
        }
    }

    /// How the summary calls the source: a disk by its name, an image by its path.
    pub open spec fn source_name(self) -> Seq<char> {
        match self.chosen_source() {
            None => "(sin elegir)"@,
            Some(source) => if self.has_manual_path() {
                source
            } else {
                match disk_at(drives::models(self.drives@), source) {
                    Some(i) => self.drives@[i].display_name@,
                    None => source,
                }
            },
        }
    }

    /// How the summary calls the source.
    pub fn source_label(&self) -> (label: String)
        ensures
            label@ == self.source_name(),
    {
        let source = match self.resolve_source() {
            Some(source) => source,
            None => {
                return text::owned("(sin elegir)");
            },
        };
        let all = text::letters(self.manual_path.as_str());
        if parse::trim(&all).len() > 0 {
            return source;
        }
        let ghost disks = drives::models(self.drives@);
        let mut i: usize = 0;
        while i < self.drives.len()
            invariant
                i <= self.drives@.len(),
                disks == drives::models(self.drives@),
                self.chosen_source() == Some(source@),
                !self.has_manual_path(),
                disk_at(disks, source@) == disk_from(disks, source@, i as int),
            decreases self.drives@.len() - i,
        {
            assert(disks[i as int] == self.drives@[i as int].model());
            if paths::same_path(self.drives[i].path.as_str(), source.as_str()) {
                return self.drives[i].display_name.clone();
            }
            i = i + 1;
        }
        source
    }

    /// Names of the kinds of files that are ticked.
    pub open spec fn type_names(self) -> Seq<Seq<char>> {
        (if self.photos { seq!["fotos"@] } else { Seq::empty() })
            + (if self.videos { seq!["videos"@] } else { Seq::empty() })
            + (if self.audio { seq!["audio"@] } else { Seq::empty() })
            + (if self.documents { seq!["documentos"@] } else { Seq::empty() })
    }

    /// How the summary calls the kinds of files.
    pub fn types_label(&self) -> (label: String)
        ensures
            label@ == text::joined(self.type_names(), ", "@),
    {
        let mut names: Vec<String> = Vec::new();
        if self.photos {
            names.push(text::owned("fotos"));
        }
        if self.videos {
            names.push(text::owned("videos"));
        }
        if self.audio {
            names.push(text::owned("audio"));
        }
        if self.documents {
            names.push(text::owned("documentos"));
        }
        assert(text::texts(names@) =~= self.type_names());
        let mut label = String::new();
        text::push_joined(&mut label, &names, ", ");
        assert(label@ =~= text::joined(self.type_names(), ", "@));
        label
    }

    /// Why a question cannot be left yet; `output` is the folder to save to, in full.
    pub open spec fn obstacle(self, step: Step, output: Seq<char>) -> Option<Seq<char>> {
        match step {
            Step::Source => if self.chosen_source() is None {
                Some("Elegí un disco o un archivo de imagen"@)
            } else {
                None
            },
            Step::Types => if self.ticked().len() == 0 {
                Some("Marcá al menos un tipo"@)
            } else {
                None
            },
            Step::Output => if parse::trimmed(self.output_dir@).len() == 0 {
                Some("Elegí una carpeta"@)
            } else if util::names_device(output) {
                Some("Eso es un disco, no una carpeta"@)
            } else {
                None
            },
            Step::Summary => None,
        }
    }

    /// Why a question cannot be left yet. It is said beside the button, before anything goes
    /// wrong.
    pub fn step_obstacle(&self, step: Step, output: &str) -> (reason: Option<&'static str>)
        ensures
            match self.obstacle(step, output@) {
                Some(words) => reason is Some && reason->0@ == words,
                None => reason is None,
            },
    {
        match step {
            Step::Source => {
                if self.resolve_source().is_none() {
                    Some("Elegí un disco o un archivo de imagen")
                } else {
                    None
                }
            },
            Step::Types => {
                let categories = self.selected_categories();
                if categories.len() == 0 {
                    Some("Marcá al menos un tipo")
                } else {
                    None
                }
            },
            Step::Output => {
                let all = text::letters(self.output_dir.as_str());
                if parse::trim(&all).len() == 0 {
                    Some("Elegí una carpeta")
                } else if util::is_physical_device(output) {
                    Some("Eso es un disco, no una carpeta")
                } else {
                    None
                }
            },
            Step::Summary => None,
        }
    }

    /// Goes on to the next question, where nothing stands in the way.
    pub fn advance(&mut self, step: Step, output: &str)
        ensures
            final(self).phase == (match step_after(step) {
                Some(next) => if old(self).obstacle(step, output@) is None {
                    Phase::Setup(next)
                } else {
                    old(self).phase
                },
                None => old(self).phase,
            }),
            (Wizard { phase: old(self).phase, ..*final(self) }) == *old(self),
    {
        if self.step_obstacle(step, output).is_some() {
            return ;
        }
        match step {
            Step::Source => {
                self.phase = Phase::Setup(Step::Types);
            },
            Step::Types => {
                self.phase = Phase::Setup(Step::Output);
            },
            Step::Output => {
                self.phase = Phase::Setup(Step::Summary);
            },
            Step::Summary => {},
        }
    }

    /// Goes back to the question before.
    pub fn go_back(&mut self, step: Step)
        ensures
            final(self).phase == (match step_before(step) {
                Some(before) => Phase::Setup(before),
                None => old(self).phase,
            }),
            (Wizard { phase: old(self).phase, ..*final(self) }) == *old(self),
    {
        if let Some(before) = step.prev() {
            self.phase = Phase::Setup(before);
        }
    }

    /// Shows the results again, where there are any: correcting the folder costs no second scan.
    pub fn back_to_results(&mut self)
        ensures
            final(self).phase == (if old(self).scan_result is Some {
                Phase::Results
            } else {
                old(self).phase
            }),
            (Wizard { phase: old(self).phase, ..*final(self) }) == *old(self),
    {
        if self.scan_result.is_some() {
            self.phase = Phase::Results;
        }
    }

    /// Goes back to the first question once all is done, without any results.
    pub fn restart(&mut self)
        ensures
            final(self).phase == Phase::Setup(Step::Source),
            final(self).scan_result is None,
            final(self).recovery_result is None,
            (Wizard {
                phase: old(self).phase,
                scan_result: old(self).scan_result,
                recovery_result: old(self).recovery_result,
                ..*final(self)
            }) == *old(self),
    {
        self.phase = Phase::Setup(Step::Source);
        self.scan_result = None;
        self.recovery_result = None;
    }

    /// Leaves the results for the first question, and drops them.
    pub fn leave_results(&mut self)
        ensures
            final(self).phase == Phase::Setup(Step::Source),
            final(self).scan_result is None,
            (Wizard {
                phase: old(self).phase,
                scan_result: old(self).scan_result,
                ..*final(self)
            }) == *old(self),
    {
        self.phase = Phase::Setup(Step::Source);
        self.scan_result = None;
    }

    /// Leaves an error. Results from before it stay.
    pub fn leave_error(&mut self)
        ensures
            final(self).phase == Phase::Setup(Step::Source),
            (Wizard { phase: old(self).phase, ..*final(self) }) == *old(self),
    {
        self.phase = Phase::Setup(Step::Source);
    }

    /// All but what an error changes is as it was.
    pub open spec fn failed_from(self, before: Wizard) -> bool {
        &&& self.phase == Phase::Error
        &&& self.pending_warning is None
        &&& (Wizard {
            phase: before.phase,
            pending_warning: before.pending_warning,
            error_msg: before.error_msg,
            error_hint: before.error_hint,
            ..self
        }) == before
    }

    /// Shows an error.
    pub fn fail(&mut self, message: &str)
        ensures
            final(self).failed_from(*old(self)),
            final(self).error_msg@ == message@,
            final(self).error_hint is None,
    {
        self.error_msg = text::owned(message);
        self.error_hint = None;
        self.pending_warning = None;
        self.phase = Phase::Error;
    }

    /// Shows an error of the system, with a hint in plain words where there is one. `causes` are
    /// the kinds of its causes, outermost first.
    pub fn fail_io(&mut self, prefix: &str, detail: &str, causes: &[Option<IoErrorKind>])
        ensures
            final(self).failed_from(*old(self)),
            final(self).error_msg@ == prefix@ + ": "@ + detail@,
            match util::first_io_error(causes@) {
                None => final(self).error_hint is None,
                Some(kind) => match util::hint_for(kind) {
                    None => final(self).error_hint is None,
                    Some(words) => final(self).error_hint is Some && final(self).error_hint->0@
                        == words,
                },
            },
    {
        let mut message = text::owned(prefix);
        message.append(": ");
        message.append(detail);
        self.error_msg = message;
        self.error_hint = util::friendly_error_hint(causes);
        self.pending_warning = None;
        self.phase = Phase::Error;
    }

    /// What is missing for a scan; `output` is the folder to save to, in full. The folder can be no
    /// device: writing there would overwrite a whole disk.
    pub open spec fn missing(self, output: Seq<char>) -> Option<Seq<char>> {
        if self.chosen_source() is None {
            Some("Elegí un disco o escribí una ruta de imagen."@)
        } else if self.ticked().len() == 0 {
            Some("Elegí al menos un tipo de archivo para buscar."@)
        } else if parse::trimmed(self.output_dir@).len() == 0 {
            Some(
                "Elegí una carpeta donde guardar lo recuperado. Tiene que estar en un disco distinto del que estás recuperando."@,
            )
        } else if util::names_device(output) {
            Some(
                "La carpeta de salida no puede ser un disco/dispositivo. Elegí una carpeta normal."@,
            )
        } else {
            None
        }
    }

    /// The user took the risk for this very source and output.
    pub open spec fn has_accepted(self, source: Seq<char>, output: Seq<char>) -> bool {
        self.same_device_accepted matches Some((s, o)) && paths::are_same(s@, source)
            && paths::are_same(o@, output)
    }

    fn accepted(&self, source: &str, output: &str) -> (yes: bool)
        ensures
            yes == self.has_accepted(source@, output@),
    {
        match &self.same_device_accepted {
            Some((s, o)) => paths::same_path(s.as_str(), source) && paths::same_path(
                o.as_str(),
                output,
            ),
            None => false,
        }
    }

    /// A scan of this source has started.
    pub open spec fn scanning_from(self, before: Wizard, source: Seq<char>) -> bool {
        &&& self.phase == Phase::Scanning
        &&& drives::optional(self.source) == Some(source)
        &&& self.scan_result is None
        &&& (Wizard {
            phase: before.phase,
            source: before.source,
            scan_result: before.scan_result,
            ..self
        }) == before
    }

    fn begin_scan(&mut self, source: &String)
        ensures
            final(self).scanning_from(*old(self), source@),
    {
        self.source = Some(source.clone());
        self.scan_result = None;
        self.phase = Phase::Scanning;
    }

    /// The user wants the scan to start; `output` is the folder to save to, in full.
    pub fn request_scan(&mut self, output: &str) -> (step: StartStep)
        ensures
            if old(self).pending_warning is Some {
                step is Ignored && *final(self) == *old(self)
            } else {
                match old(self).missing(output@) {
                    Some(message) => {
                        &&& step is Failed
                        &&& final(self).failed_from(*old(self))
                        &&& final(self).error_msg@ == message
                        &&& final(self).error_hint is None
                    },
                    None => {
                        let source = old(self).chosen_source()->0;
                        if old(self).has_accepted(source, output@) {
                            &&& step matches StartStep::Start(s) && s@ == source
                            &&& final(self).scanning_from(*old(self), source)
                        } else {
                            &&& step matches StartStep::Check(s) && s@ == source
                            &&& *final(self) == *old(self)
                        }
                    },
                }
            },
    {
        if self.pending_warning.is_some() {
            return StartStep::Ignored;
        }
        let source = match self.resolve_source() {
            Some(source) => source,
            None => {
                self.fail("Elegí un disco o escribí una ruta de imagen.");
                return StartStep::Failed;
            },
        };
        let categories = self.selected_categories();
        if categories.len() == 0 {
            self.fail("Elegí al menos un tipo de archivo para buscar.");
            return StartStep::Failed;
        }
        let folder = text::letters(self.output_dir.as_str());
        if parse::trim(&folder).len() == 0 {
            self.fail(
                "Elegí una carpeta donde guardar lo recuperado. Tiene que estar en un disco distinto del que estás recuperando.",
            );
            return StartStep::Failed;
        }
        if util::is_physical_device(output) {
            self.fail(
                "La carpeta de salida no puede ser un disco/dispositivo. Elegí una carpeta normal.",
            );
            return StartStep::Failed;
        }
        if self.accepted(source.as_str(), output) {
            self.begin_scan(&source);
            StartStep::Start(source)
        } else {
            StartStep::Check(source)
        }
    }

    /// Takes what looking at the disk of the output came to before a scan: a warning stops it until
    /// the user decides. Returns whether the scan starts.
    pub fn checked_scan(&mut self, source: String, warning: Option<String>) -> (starts: bool)
        ensures
            match warning {
                Some(words) => {
                    &&& !starts
                    &&& final(self).pending_warning == Some((words, PendingAction::Scan))
                    &&& (Wizard { pending_warning: old(self).pending_warning, ..*final(self) })
                        == *old(self)
                },
                None => starts && final(self).scanning_from(*old(self), source@),
            },
    {
        match warning {
            Some(words) => {
                self.pending_warning = Some((words, PendingAction::Scan));
                false
            },
            None => {
                self.begin_scan(&source);
                true
            },
        }
    }

    /// A recovery has started.
    pub open spec fn recovering_from(self, before: Wizard) -> bool {
        &&& self.phase == Phase::Recovering
        &&& (Wizard { phase: before.phase, ..self }) == before
    }

    /// The user wants the files to be recovered; `output` is the folder to save to, in full. The
    /// disk of the output is looked at once more: since the scan it may have changed.
    pub fn request_recovery(&mut self, output: &str) -> (step: StartStep)
        ensures
            if old(self).pending_warning is Some || old(self).source is None || old(self).scan_result is None {
                step is Ignored && *final(self) == *old(self)
            } else {
                let source = old(self).source->0@;
                if old(self).has_accepted(source, output@) {
                    &&& step matches StartStep::Start(s) && s@ == source
                    &&& final(self).recovering_from(*old(self))
                } else {
                    &&& step matches StartStep::Check(s) && s@ == source
                    &&& *final(self) == *old(self)
                }
            },
    {
        if self.pending_warning.is_some() || self.scan_result.is_none() {
            return StartStep::Ignored;
        }
        let source = match &self.source {
            Some(source) => source.clone(),
            None => {
                return StartStep::Ignored;
            },
        };
        if self.accepted(source.as_str(), output) {
            self.phase = Phase::Recovering;
            StartStep::Start(source)
        } else {
            StartStep::Check(source)
        }
    }

    /// Takes what looking at the disk of the output came to before a recovery. Returns whether the
    /// recovery starts.
    pub fn checked_recovery(&mut self, warning: Option<String>) -> (starts: bool)
        ensures
            match warning {
                Some(words) => {
                    &&& !starts
                    &&& final(self).pending_warning == Some((words, PendingAction::Recover))
                    &&& (Wizard { pending_warning: old(self).pending_warning, ..*final(self) })
                        == *old(self)
                },
                None => starts && final(self).recovering_from(*old(self)),
            },
    {
        match warning {
            Some(words) => {
                self.pending_warning = Some((words, PendingAction::Recover));
                false
            },
            None => {
                self.phase = Phase::Recovering;
                true
            },
        }
    }

    /// Takes the answer to the warning. Who takes the risk does so for the source and the output
    /// chosen now, and what waited is to be requested again: it is returned. Who does not is led to
    /// the choice of the folder, and keeps the results.
    pub fn answer_warning(&mut self, take_risk: bool, output: &str) -> (retry: Option<
        PendingAction,
    >)
        ensures
            final(self).pending_warning is None,
            match old(self).pending_warning {
                None => retry is None && *final(self) == *old(self),
                Some((_, action)) => if take_risk {
                    &&& retry == Some(action)
                    &&& final(self).phase == old(self).phase
                    &&& match old(self).chosen_source() {
                        Some(source) => final(self).has_accepted(source, output@),
                        None => final(self).same_device_accepted == old(self).same_device_accepted,
                    }
                    &&& (Wizard {
                        pending_warning: old(self).pending_warning,
                        same_device_accepted: old(self).same_device_accepted,
                        ..*final(self)
                    }) == *old(self)
                } else {
                    &&& retry is None
                    &&& final(self).phase == Phase::Setup(Step::Output)
                    &&& (Wizard {
                        pending_warning: old(self).pending_warning,
                        phase: old(self).phase,
                        ..*final(self)
                    }) == *old(self)
                },
            },
    {
        let action = match &self.pending_warning {
            None => {
                return None;
            },
            Some((_, action)) => *action,
        };
        self.pending_warning = None;
        if take_risk {
            if let Some(source) = self.resolve_source() {
                self.same_device_accepted = Some((source, text::owned(output)));
            }
            Some(action)
        } else {
            self.phase = Phase::Setup(Step::Output);
            None
        }
    }

    /// The scan in the background came to an end.
    pub fn scan_finished(&mut self, result: ScanResult)
        ensures
            final(self).phase == Phase::Results,
            final(self).scan_result == Some(result),
            (Wizard {
                phase: old(self).phase,
                scan_result: old(self).scan_result,
                ..*final(self)
            }) == *old(self),
    {
        self.scan_result = Some(result);
        self.phase = Phase::Results;
    }

    /// The recovery in the background came to an end.
    pub fn recovery_finished(&mut self, result: RecoveryResult)
        ensures
            final(self).phase == Phase::Done,
            final(self).recovery_result == Some(result),
            (Wizard {
                phase: old(self).phase,
                recovery_result: old(self).recovery_result,
                ..*final(self)
            }) == *old(self),
    {
        self.recovery_result = Some(result);
        self.phase = Phase::Done;
    }

    /// The work in the background broke down without an answer.
    pub fn work_lost(&mut self)
        ensures
            match old(self).phase {
                Phase::Scanning => final(self).failed_from(*old(self)) && final(self).error_msg@
                    == "El escaneo terminó inesperadamente."@ && final(self).error_hint is None,
                Phase::Recovering => final(self).failed_from(*old(self)) && final(self).error_msg@ == "La recuperación terminó inesperadamente."@ && final(self).error_hint is None,
                _ => *final(self) == *old(self),
            },
    {
        match self.phase {
            Phase::Scanning => {
                self.fail("El escaneo terminó inesperadamente.");
            },
            Phase::Recovering => {
                self.fail("La recuperación terminó inesperadamente.");
            },
            _ => {},
        }
    }
}

/// Position of the first disk with this path, from position `i` on.
pub open spec fn disk_from(disks: Seq<DriveModel>, path: Seq<char>, i: int) -> Option<int>
    decreases disks.len() - i,
{
    if i >= disks.len() {
        None
    } else if paths::are_same(disks[i].path, path) {
        Some(i)
    } else {
        disk_from(disks, path, i + 1)
    }
}

/// Position of the first disk with this path.
pub open spec fn disk_at(disks: Seq<DriveModel>, path: Seq<char>) -> Option<int> {
    disk_from(disks, path, 0)
}

/// Taking the risk for one pair of source and output is consent for the same pair, however its
/// paths are written, and for no other pair.
pub proof fn law_consent_holds_for_one_pair_only(
    wizard: Wizard,
    source: Seq<char>,
    output: Seq<char>,
    other_source: Seq<char>,
    other_output: Seq<char>,
)
    requires
        wizard.has_accepted(source, output),
    ensures
        wizard.has_accepted(other_source, other_output) <==> paths::are_same(source, other_source)
            && paths::are_same(output, other_output),
{
}

/// The wizard can be walked back the way it was walked.
pub proof fn law_steps_lead_back(step: Step)
    ensures
        step_after(step) matches Some(next) ==> step_before(next) == Some(step) && index_of(next)
            == index_of(step) + 1,
        step_before(step) is None <==> index_of(step) == 0,
        step_after(step) is None <==> index_of(step) == STEP_COUNT - 1,
{
}

/// A scan can start from the summary once every question could be left.
pub proof fn law_answered_questions_suffice(wizard: Wizard, output: Seq<char>)
    ensures
        wizard.missing(output) is None <==> {
            &&& wizard.obstacle(Step::Source, output) is None
            &&& wizard.obstacle(Step::Types, output) is None
            &&& wizard.obstacle(Step::Output, output) is None
        },
{
}

/// Files of a result that the window lists.
pub const LISTED_RESULTS: usize = 500;

/// The files of a result that the window lists, those that can be trusted first, each with its
/// state and its line.
pub fn result_rows(found_files: &[FoundFile]) -> (rows: Vec<(Integrity, String)>)
    ensures
        ({
            let files = found::presented(found_files@);
            &&& rows@.len() == (if files.len() <= LISTED_RESULTS {
                files.len()
            } else {
                LISTED_RESULTS as nat
            })
            &&& forall|i: int|
                0 <= i < rows@.len() ==> {
                    &&& (#[trigger] rows@[i]).0 == found::integrity_of(files[i])
                    &&& rows@[i].1@ == found::summary_of(files[i])
                }
        }),
{
    let files = found::in_display_order(found_files);
    let mut rows: Vec<(Integrity, String)> = Vec::new();
    let count: usize = if files.len() <= LISTED_RESULTS { files.len() } else { LISTED_RESULTS };
    let mut i: usize = 0;
    while i < count
        invariant
            i <= count <= files@.len(),
            rows@.len() == i,
            forall|k: int|
                0 <= k < i ==> {
                    &&& (#[trigger] rows@[k]).0 == found::integrity_of(files@[k])
                    &&& rows@[k].1@ == found::summary_of(files@[k])
                },
        decreases count - i,
    {
        rows.push((files[i].integrity(), files[i].friendly_summary()));
        i = i + 1;
    }
    rows
}

/// The line below the bar of a scan: how much was read of how much. Segments overlap, so the count
/// may run past the end.
pub fn scan_progress_line(done: u64, total: u64) -> (line: Option<String>)
    ensures
        drives::optional(line) == (if total > 0 {
            Some(
                util::size_text(
                    if done <= total {
                        done as nat
                    } else {
                        total as nat
                    },
                ) + " de "@ + util::size_text(total as nat) + " revisados"@,
            )
        } else {
            None
        }),
{
    if total == 0 {
        return None;
    }
    let mut line = util::format_size(if done <= total { done } else { total });
    line.append(" de ");
    line.append(util::format_size(total).as_str());
    line.append(" revisados");
    Some(line)
}

/// The line below the bar of a recovery.
pub fn recovery_progress_line(done: u64, total: u64, bytes: u64) -> (line: Option<String>)
    ensures
        drives::optional(line) == (if total > 0 {
            Some(
                text::decimal(
                    if done <= total {
                        done as nat
                    } else {
                        total as nat
                    },
                ) + " de "@ + text::decimal(total as nat) + " archivos  ·  "@ + util::size_text(
                    bytes as nat,
                ) + " guardados"@,
            )
        } else {
            None
        }),
{
    if total == 0 {
        return None;
    }
    let mut line = String::new();
    text::push_decimal(&mut line, if done <= total { done } else { total });
    line.append(" de ");
    text::push_decimal(&mut line, total);
    line.append(" archivos  ·  ");
    line.append(util::format_size(bytes).as_str());
    line.append(" guardados");
    assert(Seq::<char>::empty() + text::decimal((if done <= total { done } else { total }) as nat)
        =~= text::decimal((if done <= total { done } else { total }) as nat));
    Some(line)
}

/// Files that were not saved in full.
pub open spec fn incomplete(result: RecoveryResult) -> nat {
    (result.truncated + result.failed) as nat
}

/// The headline of a recovery. It never says that all is well while something is incomplete.
pub open spec fn headline_of(result: RecoveryResult) -> Seq<char> {
    if incomplete(result) > 0 {
        "Se recuperaron "@ + text::decimal(result.recovered as nat) + " archivos, y "@
            + text::decimal(incomplete(result)) + " quedaron incompletos."@
    } else {
        "✅ ¡Listo! Se recuperaron "@ + text::decimal(result.recovered as nat) + " archivos."@
    }
}

/// The headline of a recovery.
pub fn done_headline(result: &RecoveryResult) -> (headline: String)
    requires
        incomplete(*result) <= u64::MAX,
    ensures
        headline@ == headline_of(*result),
{
    let missing: u64 = result.truncated as u64 + result.failed as u64;
    if missing > 0 {
        let mut headline = text::owned("Se recuperaron ");
        text::push_decimal(&mut headline, result.recovered as u64);
        headline.append(" archivos, y ");
        text::push_decimal(&mut headline, missing);
        headline.append(" quedaron incompletos.");
        headline
    } else {
        let mut headline = text::owned("✅ ¡Listo! Se recuperaron ");
        text::push_decimal(&mut headline, result.recovered as u64);
        headline.append(" archivos.");
        headline
    }
}

/// What is ticked is looked for, and nothing else.
pub proof fn law_ticks_choose_categories(wizard: Wizard, category: FileCategory)
    ensures
        wizard.ticked().contains(category) <==> {
            ||| wizard.photos && category == FileCategory::Photo
            ||| wizard.videos && category == FileCategory::Video
            ||| wizard.audio && category == FileCategory::Audio
            ||| wizard.documents && category == FileCategory::Document
        },
        wizard.ticked().len() == 0 <==> !wizard.photos && !wizard.videos && !wizard.audio
            && !wizard.documents,
        wizard.type_names().len() == wizard.ticked().len(),
{
    let all = wizard.ticked();
    let a: int = if wizard.photos { 1 } else { 0 };
    let b: int = a + if wizard.videos { 1int } else { 0int };
    let c: int = b + if wizard.audio { 1int } else { 0int };
    if wizard.photos {
        assert(all[0] == FileCategory::Photo);
    }
    if wizard.videos {
        assert(all[a] == FileCategory::Video);
    }
    if wizard.audio {
        assert(all[b] == FileCategory::Audio);
    }
    if wizard.documents {
        assert(all[c] == FileCategory::Document);
    }
}

/// The wizard starts from the first disk that can be taken out, and from the first of all where none
/// can.
pub proof fn law_the_first_removable_disk_is_offered(disks: Seq<DriveModel>, i: int)
    requires
        0 <= i <= disks.len(),
        forall|k: int| 0 <= k < i ==> !(#[trigger] disks[k]).is_removable,
        i < disks.len() ==> disks[i].is_removable,
    ensures
        first_removable(disks) == if i < disks.len() { i } else { 0 },
{
    if i < disks.len() {
        assert(is_first_removable(disks, i));
        let other = choose|i: int| is_first_removable(disks, i);
        assert(is_first_removable(disks, other));
    } else if exists|j: int| is_first_removable(disks, j) {
        let other = choose|j: int| is_first_removable(disks, j);
        assert(!disks[other].is_removable);
    }
}

/// A path written by hand goes before the disk of the list. Blanks are no path.
pub proof fn law_paths_by_hand_go_first(wizard: Wizard)
    ensures
        parse::trimmed(wizard.manual_path@).len() > 0 ==> wizard.chosen_source() == Some(
            parse::trimmed(wizard.manual_path@),
        ),
        parse::trimmed(wizard.manual_path@).len() == 0 && wizard.selected_drive
            < wizard.drives@.len() ==> wizard.chosen_source() == Some(
            wizard.drives@[wizard.selected_drive as int].path@,
        ),
        wizard.chosen_source() is None <==> parse::trimmed(wizard.manual_path@).len() == 0
            && wizard.selected_drive >= wizard.drives@.len(),
{
}

/// The headline says that all is well only where every file was saved in full.
pub proof fn law_headlines_do_not_hide_losses(result: RecoveryResult)
    ensures
        headline_of(result)[0] == '✅' <==> result.truncated == 0 && result.failed == 0,
{
    reveal_strlit("Se recuperaron ");
    reveal_strlit("✅ ¡Listo! Se recuperaron ");
    let (good, bad) = ("✅ ¡Listo! Se recuperaron "@, "Se recuperaron "@);
    assert(good[0] == '✅' && bad[0] == 'S');
    assert(good.len() > 0 && bad.len() > 0);
    assert(headline_of(result)[0] == if incomplete(result) > 0 { bad[0] } else { good[0] });
}

} // verus!
