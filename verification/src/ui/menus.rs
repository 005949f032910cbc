//! The menus that lead to a scan or a clone.

use vstd::prelude::*;

use crate::signatures::{self, FileCategory};
use crate::text;
use crate::util;

verus! {

/// What can be done from the main menu.
#[derive(Debug, Clone, Copy, PartialEq, Eq, Structural)]
pub enum MainMenuChoice {
    Scan,
    Clone,
    About,
    Exit,
}

/// A scan that the user set up.
pub struct ScanConfig {
    pub source_path: String,
    pub output_dir: String,
    pub categories: Vec<FileCategory>,
}

/// A clone that the user set up.
pub struct CloneConfig {
    pub source_path: String,
    pub output_path: String,
}

/// What was chosen in the main menu. Anything behind its entries leads out.
pub fn main_menu(selection: usize) -> (choice: MainMenuChoice)
    ensures
        choice == (match selection {
            0 => MainMenuChoice::Scan,
            1 => MainMenuChoice::Clone,
            2 => MainMenuChoice::About,
            _ => MainMenuChoice::Exit,
        }),
{
    match selection {
        0 => MainMenuChoice::Scan,
        1 => MainMenuChoice::Clone,
        2 => MainMenuChoice::About,
        _ => MainMenuChoice::Exit,
    }
}

/// The address behind an entry of the farewell.
pub fn support_link(selection: Option<usize>) -> (link: Option<&'static str>)
    ensures
        match selection {
            Some(0) => link is Some && link->0@ == "https://www.youtube.com/@el_becerril"@,
            Some(1) => link is Some && link->0@ == "https://www.facebook.com/ElBecerril"@,
            _ => link is None,
        },
{
    match selection {
        Some(0) => Some("https://www.youtube.com/@el_becerril"),
        Some(1) => Some("https://www.facebook.com/ElBecerril"),
        _ => None,
    }
}

/// Reading the source takes rights that the user does not have: it is a raw device.
pub open spec fn lacks_rights(source: Seq<char>, is_admin: bool) -> bool {
    util::names_device(source) && !is_admin
}

/// The category behind an entry of the list of file types.
pub open spec fn category_at(entry: usize) -> Option<FileCategory> {
    if entry == 0 {
        Some(FileCategory::Photo)
    } else if entry == 1 {
        Some(FileCategory::Video)
    } else if entry == 2 {
        Some(FileCategory::Audio)
    } else if entry == 3 {
        Some(FileCategory::Document)
    } else {
        None
    }
}

/// The categories behind the chosen entries, in order.
pub open spec fn categories_at(entries: Seq<usize>) -> Seq<FileCategory>
    decreases entries.len(),
{
    if entries.len() == 0 {
        Seq::empty()
    } else {
        let before = categories_at(entries.drop_last());
        match category_at(entries.last()) {
            Some(category) => before.push(category),
            None => before,
        }
    }
}

/// The categories behind the chosen entries.
pub fn chosen_categories(entries: &[usize]) -> (categories: Vec<FileCategory>)
    ensures
        categories@ == categories_at(entries@),
{
    let mut categories: Vec<FileCategory> = Vec::new();
    let mut i: usize = 0;
    while i < entries.len()
        invariant
            i <= entries@.len(),
            categories@ == categories_at(entries@.take(i as int)),
        decreases entries@.len() - i,
    {
        proof {
            assert(entries@.take(i as int + 1).drop_last() =~= entries@.take(i as int));
            assert(entries@.take(i as int + 1).last() == entries@[i as int]);
        }
        match entries[i] {
            0 => categories.push(FileCategory::Photo),
            1 => categories.push(FileCategory::Video),
            2 => categories.push(FileCategory::Audio),
            3 => categories.push(FileCategory::Document),
            _ => {},
        }
        i = i + 1;
    }
    assert(entries@.take(entries@.len() as int) =~= entries@);
    categories
}

/// The names of the categories.
pub open spec fn labels(categories: Seq<FileCategory>) -> Seq<Seq<char>> {
    categories.map_values(|category: FileCategory| signatures::category_label(category))
}

/// The names of the categories, with commas between them.
pub fn category_line(categories: &Vec<FileCategory>) -> (line: String)
    ensures
        line@ == text::joined(labels(categories@), ", "@),
{
    let mut names: Vec<String> = Vec::new();
    let ghost wanted = labels(categories@);
    let mut i: usize = 0;
    while i < categories.len()
        invariant
            i <= categories@.len(),
            wanted == labels(categories@),
            text::texts(names@) =~= wanted.take(i as int),
        decreases categories@.len() - i,
    {
        let name = text::owned(categories[i].label());
        let ghost before = names@;
        names.push(name);
        assert(text::texts(names@) =~= text::texts(before).push(name@));
        i = i + 1;
    }
    assert(text::texts(names@) =~= wanted);
    let mut line = String::new();
    text::push_joined(&mut line, &names, ", ");
    assert(line@ =~= text::joined(wanted, ", "@));
    line
}

/// Suggested name of the folder for what is recovered; `stamp` is the time.
pub fn default_output_name(stamp: &str) -> (name: String)
    ensures
        name@ == "RecupeGhost_"@ + stamp@,
{
    let mut name = text::owned("RecupeGhost_");
    name.append(stamp);
    name
}

/// Suggested name of an image file; `stamp` is the time.
pub fn default_image_name(stamp: &str) -> (name: String)
    ensures
        name@ == "RecupeGhost_imagen_"@ + stamp@ + ".img"@,
{
    let mut name = text::owned("RecupeGhost_imagen_");
    name.append(stamp);
    name.append(".img");
    name
}

/// The question that a menu is at.
#[derive(Debug, Clone, Copy, PartialEq, Eq, Structural)]
pub enum Question {
    /// What to read.
    Source,
    /// Whether the user has the rights that the source takes.
    Rights,
    /// Whether to go on without them.
    GoOnAnyway,
    /// Which file types to look for.
    Types,
    /// Where to save.
    Output,
    /// Whether to start.
    Confirm,
    /// The user turned back.
    Cancelled,
    /// All is set.
    Ready,
}

/// The menu that sets a scan up.
pub struct ScanMenu {
    pub question: Question,
    pub source_path: String,
    pub categories: Vec<FileCategory>,
    pub output_dir: String,
}

/// What the menu of a scan has been told so far.
#[verifier::ext_equal]
pub struct ScanMenuModel {
    pub question: Question,
    pub source_path: Seq<char>,
    pub categories: Seq<FileCategory>,
    pub output_dir: Seq<char>,
}

impl ScanMenuModel {
    /// The menu with a source to start from, or with none.
    pub open spec fn start(preselected: Option<Seq<char>>) -> Self {
        ScanMenuModel {
            question: if preselected is Some {
                Question::Rights
            } else {
                Question::Source
            },
            source_path: match preselected {
                Some(source) => source,
                None => Seq::empty(),
            },
            categories: Seq::empty(),
            output_dir: Seq::empty(),
        }
    }

    /// The menu after a source was chosen, or none.
    pub open spec fn with_source(self, source: Option<Seq<char>>) -> Self {
        match source {
            Some(source) => ScanMenuModel {
                question: Question::Rights,
                source_path: source,
                ..self
            },
            None => ScanMenuModel { question: Question::Cancelled, ..self },
        }
    }

    /// The menu once it is known whether the user has all rights.
    pub open spec fn with_rights(self, is_admin: bool) -> Self {
        ScanMenuModel {
            question: if lacks_rights(self.source_path, is_admin) {
                Question::GoOnAnyway
            } else {
                Question::Types
            },
            ..self
        }
    }

    /// The menu after the choice to go on without rights: the second entry turns back.
    pub open spec fn with_insistence(self, choice: usize) -> Self {
        ScanMenuModel {
            question: if choice == 1 {
                Question::Cancelled
            } else {
                Question::Types
            },
            ..self
        }
    }

    /// The menu after file types were chosen. Without any there is nothing to look for.
    pub open spec fn with_types(self, entries: Seq<usize>) -> Self {
        if entries.len() == 0 {
            ScanMenuModel { question: Question::Cancelled, ..self }
        } else {
            ScanMenuModel {
                question: Question::Output,
                categories: categories_at(entries),
                ..self
            }
        }
    }

    /// The menu after a folder was chosen.
    pub open spec fn with_output(self, output_dir: Seq<char>) -> Self {
        ScanMenuModel { question: Question::Confirm, output_dir: output_dir, ..self }
    }

    /// The menu after the last question.
    pub open spec fn with_consent(self, confirmed: bool) -> Self {
        ScanMenuModel {
            question: if confirmed {
                Question::Ready
            } else {
                Question::Cancelled
            },
            ..self
        }
    }
}

impl View for ScanMenu {
    type V = ScanMenuModel;

    open spec fn view(&self) -> ScanMenuModel {
        ScanMenuModel {
            question: self.question,
            source_path: self.source_path@,
            categories: self.categories@,
            output_dir: self.output_dir@,
        }
    }
}

/// Starts the menu of a scan with the choice of a source.
pub fn scan_menu() -> (menu: ScanMenu)
    ensures
        menu@ == ScanMenuModel::start(None),
{
    scan_menu_with_source(None)
}

/// Starts the menu of a scan, with a source to start from where one was chosen before, such as an
/// image that was just made.
pub fn scan_menu_with_source(preselected: Option<String>) -> (menu: ScanMenu)
    ensures
        menu@ == ScanMenuModel::start(
            match preselected {
                Some(source) => Some(source@),
                None => None,
            },
        ),
{
    let categories: Vec<FileCategory> = Vec::new();
    match preselected {
        Some(source_path) => ScanMenu {
            question: Question::Rights,
            source_path,
            categories,
            output_dir: String::new(),
        },
        None => ScanMenu {
            question: Question::Source,
            source_path: String::new(),
            categories,
            output_dir: String::new(),
        },
    }
}

impl ScanMenu {
    /// Takes the source that was chosen, or that none was.
    pub fn choose_source(&mut self, source: Option<String>)
        requires
            old(self).question == Question::Source,
        ensures
            final(self)@ == old(self)@.with_source(
                match source {
                    Some(source) => Some(source@),
                    None => None,
                },
            ),
    {
        match source {
            Some(source) => {
                self.source_path = source;
                self.question = Question::Rights;
            },
            None => {
                self.question = Question::Cancelled;
            },
        }
    }

    /// Takes whether the user has all rights.
    pub fn check_rights(&mut self, is_admin: bool)
        requires
            old(self).question == Question::Rights,
        ensures
            final(self)@ == old(self)@.with_rights(is_admin),
    {
        self.question =
        if util::is_physical_device(self.source_path.as_str()) && !is_admin {
            Question::GoOnAnyway
        } else {
            Question::Types
        };
    }

    /// Takes the choice to go on without rights, or to turn back.
    pub fn go_on_anyway(&mut self, choice: usize)
        requires
            old(self).question == Question::GoOnAnyway,
        ensures
            final(self)@ == old(self)@.with_insistence(choice),
    {
        self.question =
        if choice == 1 {
            Question::Cancelled
        } else {
            Question::Types
        };
    }

    /// Takes the file types that were chosen.
    pub fn choose_types(&mut self, entries: &[usize])
        requires
            old(self).question == Question::Types,
        ensures
            final(self)@ == old(self)@.with_types(entries@),
    {
        if entries.len() == 0 {
            self.question = Question::Cancelled;
        } else {
            self.categories = chosen_categories(entries);
            self.question = Question::Output;
        }
    }

    /// Takes the folder to save to.
    pub fn choose_output(&mut self, output_dir: String)
        requires
            old(self).question == Question::Output,
        ensures
            final(self)@ == old(self)@.with_output(output_dir@),
    {
        self.output_dir = output_dir;
        self.question = Question::Confirm;
    }

    /// Takes the answer to the last question.
    pub fn confirm(&mut self, confirmed: bool)
        requires
            old(self).question == Question::Confirm,
        ensures
            final(self)@ == old(self)@.with_consent(confirmed),
    {
        self.question =
        if confirmed {
            Question::Ready
        } else {
            Question::Cancelled
        };
    }

    /// The scan that was set up, once all is set.
    pub fn finish(self) -> (config: Option<ScanConfig>)
        ensures
            config is Some <==> self.question == Question::Ready,
            config matches Some(config) ==> config.source_path@ == self.source_path@
                && config.output_dir@ == self.output_dir@ && config.categories@ == self.categories@,
    {
        match self.question {
            Question::Ready => Some(
                ScanConfig {
                    source_path: self.source_path,
                    output_dir: self.output_dir,
                    categories: self.categories,
                },
            ),
            _ => None,
        }
    }
}

/// All the answers of a user in the menu of a scan.
pub struct ScanAnswers {
    pub source: Option<Seq<char>>,
    pub is_admin: bool,
    pub choice: usize,
    pub entries: Seq<usize>,
    pub output_dir: Seq<char>,
    pub confirmed: bool,
}

/// Where the menu of a scan ends up with these answers.
pub open spec fn scan_dialog(answers: ScanAnswers) -> ScanMenuModel {
    let sourced = ScanMenuModel::start(None).with_source(answers.source);
    if sourced.question != Question::Rights {
        sourced
    } else {
        let asked = sourced.with_rights(answers.is_admin);
        let allowed = if asked.question == Question::GoOnAnyway {
            asked.with_insistence(answers.choice)
        } else {
            asked
        };
        if allowed.question != Question::Types {
            allowed
        } else {
            let typed = allowed.with_types(answers.entries);
            if typed.question != Question::Output {
                typed
            } else {
                typed.with_output(answers.output_dir).with_consent(answers.confirmed)
            }
        }
    }
}

/// A scan starts if and only if a source was chosen, the user has the rights or goes on without
/// them, at least one file type was chosen, and the user confirmed. It is then the scan that was
/// asked for. Otherwise the menu was left.
pub proof fn law_scan_starts_as_set_up(answers: ScanAnswers)
    ensures
        scan_dialog(answers).question == Question::Ready <==> {
            &&& answers.source is Some
            &&& lacks_rights(answers.source->0, answers.is_admin) ==> answers.choice != 1
            &&& answers.entries.len() > 0
            &&& answers.confirmed
        },
        scan_dialog(answers).question == Question::Ready ==> {
            &&& scan_dialog(answers).source_path == answers.source->0
            &&& scan_dialog(answers).categories == categories_at(answers.entries)
            &&& scan_dialog(answers).output_dir == answers.output_dir
        },
        scan_dialog(answers).question != Question::Ready ==> scan_dialog(answers).question
            == Question::Cancelled,
{
}

/// The menu that sets a clone up.
pub struct CloneMenu {
    pub question: Question,
    pub source_path: String,
    pub output_path: String,
}

/// What the menu of a clone has been told so far.
#[verifier::ext_equal]
pub struct CloneMenuModel {
    pub question: Question,
    pub source_path: Seq<char>,
    pub output_path: Seq<char>,
}

impl CloneMenuModel {
    /// The menu at its start.
    pub open spec fn start() -> Self {
        CloneMenuModel {
            question: Question::Source,
            source_path: Seq::empty(),
            output_path: Seq::empty(),
        }
    }

    /// The menu after a source was chosen, or none.
    pub open spec fn with_source(self, source: Option<Seq<char>>) -> Self {
        match source {
            Some(source) => CloneMenuModel {
                question: Question::Rights,
                source_path: source,
                ..self
            },
            None => CloneMenuModel { question: Question::Cancelled, ..self },
        }
    }

    /// The menu once it is known whether the user has all rights.
    pub open spec fn with_rights(self, is_admin: bool) -> Self {
        CloneMenuModel {
            question: if lacks_rights(self.source_path, is_admin) {
                Question::GoOnAnyway
            } else {
                Question::Output
            },
            ..self
        }
    }

    /// The menu after the choice to go on without rights: the second entry turns back.
    pub open spec fn with_insistence(self, choice: usize) -> Self {
        CloneMenuModel {
            question: if choice == 1 {
                Question::Cancelled
            } else {
                Question::Output
            },
            ..self
        }
    }

    /// The menu after an image file was chosen.
    pub open spec fn with_output(self, output_path: Seq<char>) -> Self {
        CloneMenuModel { question: Question::Confirm, output_path: output_path, ..self }
    }

    /// The menu after the last question.
    pub open spec fn with_consent(self, confirmed: bool) -> Self {
        CloneMenuModel {
            question: if confirmed {
                Question::Ready
            } else {
                Question::Cancelled
            },
            ..self
        }
    }
}

impl View for CloneMenu {
    type V = CloneMenuModel;

    open spec fn view(&self) -> CloneMenuModel {
        CloneMenuModel {
            question: self.question,
            source_path: self.source_path@,
            output_path: self.output_path@,
        }
    }
}

/// Starts the menu of a clone.
pub fn clone_menu() -> (menu: CloneMenu)
    ensures
        menu@ == CloneMenuModel::start(),
{
    CloneMenu {
        question: Question::Source,
        source_path: String::new(),
        output_path: String::new(),
    }
}

impl CloneMenu {
    /// Takes the source that was chosen, or that none was.
    pub fn choose_source(&mut self, source: Option<String>)
        requires
            old(self).question == Question::Source,
        ensures
            final(self)@ == old(self)@.with_source(
                match source {
                    Some(source) => Some(source@),
                    None => None,
                },
            ),
    {
        match source {
            Some(source) => {
                self.source_path = source;
                self.question = Question::Rights;
            },
            None => {
                self.question = Question::Cancelled;
            },
        }
    }

    /// Takes whether the user has all rights.
    pub fn check_rights(&mut self, is_admin: bool)
        requires
            old(self).question == Question::Rights,
        ensures
            final(self)@ == old(self)@.with_rights(is_admin),
    {
        self.question =
        if util::is_physical_device(self.source_path.as_str()) && !is_admin {
            Question::GoOnAnyway
        } else {
            Question::Output
        };
    }

    /// Takes the choice to go on without rights, or to turn back.
    pub fn go_on_anyway(&mut self, choice: usize)
        requires
            old(self).question == Question::GoOnAnyway,
        ensures
            final(self)@ == old(self)@.with_insistence(choice),
    {
        self.question =
        if choice == 1 {
            Question::Cancelled
        } else {
            Question::Output
        };
    }

    /// Takes the image file to write.
    pub fn choose_output(&mut self, output_path: String)
        requires
            old(self).question == Question::Output,
        ensures
            final(self)@ == old(self)@.with_output(output_path@),
    {
        self.output_path = output_path;
        self.question = Question::Confirm;
    }

    /// Takes the answer to the last question.
    pub fn confirm(&mut self, confirmed: bool)
        requires
            old(self).question == Question::Confirm,
        ensures
            final(self)@ == old(self)@.with_consent(confirmed),
    {
        self.question =
        if confirmed {
            Question::Ready
        } else {
            Question::Cancelled
        };
    }

    /// The clone that was set up, once all is set.
    pub fn finish(self) -> (config: Option<CloneConfig>)
        ensures
            config is Some <==> self.question == Question::Ready,
            config matches Some(config) ==> config.source_path@ == self.source_path@
                && config.output_path@ == self.output_path@,
    {
        match self.question {
            Question::Ready => Some(
                CloneConfig { source_path: self.source_path, output_path: self.output_path },
            ),
            _ => None,
        }
    }
}

/// All the answers of a user in the menu of a clone.
pub struct CloneAnswers {
    pub source: Option<Seq<char>>,
    pub is_admin: bool,
    pub choice: usize,
    pub output_path: Seq<char>,
    pub confirmed: bool,
}

/// Where the menu of a clone ends up with these answers.
pub open spec fn clone_dialog(answers: CloneAnswers) -> CloneMenuModel {
    let sourced = CloneMenuModel::start().with_source(answers.source);
    if sourced.question != Question::Rights {
        sourced
    } else {
        let asked = sourced.with_rights(answers.is_admin);
        let allowed = if asked.question == Question::GoOnAnyway {
            asked.with_insistence(answers.choice)
        } else {
            asked
        };
        if allowed.question != Question::Output {
            allowed
        } else {
            allowed.with_output(answers.output_path).with_consent(answers.confirmed)
        }
    }
}

/// A clone starts if and only if a source was chosen, the user has the rights or goes on without
/// them, and the user confirmed. It is then the clone that was asked for. Otherwise the menu was
/// left.
pub proof fn law_clone_starts_as_set_up(answers: CloneAnswers)
    ensures
        clone_dialog(answers).question == Question::Ready <==> {
            &&& answers.source is Some
            &&& lacks_rights(answers.source->0, answers.is_admin) ==> answers.choice != 1
            &&& answers.confirmed
        },
        clone_dialog(answers).question == Question::Ready ==> {
            &&& clone_dialog(answers).source_path == answers.source->0
            &&& clone_dialog(answers).output_path == answers.output_path
        },
        clone_dialog(answers).question != Question::Ready ==> clone_dialog(answers).question
            == Question::Cancelled,
{
}

/// The entries of the list of file types stand for photos, videos, audio and documents, in this order.
/// A category is chosen where its entry is.
pub proof fn law_entries_choose_their_category(entries: Seq<usize>, category: FileCategory)
    ensures
        categories_at(entries).contains(category) <==> entries.contains(
            match category {
                FileCategory::Photo => 0usize,
                FileCategory::Video => 1usize,
                FileCategory::Audio => 2usize,
                FileCategory::Document => 3usize,
            },
        ),
    decreases entries.len(),
{
    let wanted = match category {
        FileCategory::Photo => 0usize,
        FileCategory::Video => 1usize,
        FileCategory::Audio => 2usize,
        FileCategory::Document => 3usize,
    };
    if entries.len() > 0 {
        let front = entries.drop_last();
        law_entries_choose_their_category(front, category);
        let (before, all) = (categories_at(front), categories_at(entries));
        if before.contains(category) {
            let k = choose|k: int| 0 <= k < before.len() && before[k] == category;
            assert(all[k] == category);
            let i = choose|i: int| 0 <= i < front.len() && front[i] == wanted;
            assert(entries[i] == wanted);
        } else {
            if entries.last() == wanted {
                assert(all[before.len() as int] == category);
                assert(entries[entries.len() - 1] == wanted);
            }
            if entries.contains(wanted) {
                let i = choose|i: int| 0 <= i < entries.len() && entries[i] == wanted;
                if i < front.len() {
                    assert(front[i] == wanted);
                }
            }
            if all.contains(category) {
                let k = choose|k: int| 0 <= k < all.len() && all[k] == category;
                if k < before.len() {
                    assert(before[k] == category);
                }
            }
        }
    }
}

/// Reading a source takes rights where it is a device, and only there.
pub proof fn law_devices_take_rights(source: Seq<char>)
    ensures
        lacks_rights(source, true) == false,
        lacks_rights(source, false) == util::names_device(source),
{
}

} // verus!
