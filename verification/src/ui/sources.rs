//! Choosing what to read: a disk from a list, an image file, or a path written by hand.

use vstd::prelude::*;

use crate::drives::{self, DriveInfo, DriveModel};
use crate::parse;
use crate::text;
use crate::ui::devices;
use crate::util;

verus! {

broadcast use vstd::slice::group_slice_axioms;

/// Where the choice of a source leads.
#[derive(Debug, Clone, Copy, PartialEq, Eq, Structural)]
pub enum SourceStep {
    /// List the disks that can be taken out.
    Removable,
    /// List all disks.
    AllDrives,
    /// List the image files at hand.
    Image,
    /// Ask for a path.
    Manual,
    /// Back to the menu.
    Back,
}

/// Where the choice in the first menu leads.
pub fn select_source(selection: usize) -> (step: SourceStep)
    ensures
        step == (match selection {
            0 => SourceStep::Removable,
            1 => SourceStep::AllDrives,
            2 => SourceStep::Image,
            3 => SourceStep::Manual,
            _ => SourceStep::Back,
        }),
{
    match selection {
        0 => SourceStep::Removable,
        1 => SourceStep::AllDrives,
        2 => SourceStep::Image,
        3 => SourceStep::Manual,
        _ => SourceStep::Back,
    }
}

/// Where it leads that no disk can be taken out, by the choice that is offered then.
pub fn select_removable_drive(fallback: usize) -> (step: SourceStep)
    ensures
        step == (match fallback {
            0 => SourceStep::AllDrives,
            1 => SourceStep::Image,
            2 => SourceStep::Manual,
            _ => SourceStep::Back,
        }),
{
    match fallback {
        0 => SourceStep::AllDrives,
        1 => SourceStep::Image,
        2 => SourceStep::Manual,
        _ => SourceStep::Back,
    }
}

/// Where the list of all disks leads before it is shown: without a disk, a path is asked for.
pub fn select_all_drives(found: &[DriveInfo]) -> (step: SourceStep)
    ensures
        step == (if found@.len() == 0 {
            SourceStep::Manual
        } else {
            SourceStep::AllDrives
        }),
{
    if found.len() == 0 {
        SourceStep::Manual
    } else {
        SourceStep::AllDrives
    }
}

/// Entry of a list for a disk. The disk of the system is marked as one not to save to.
pub open spec fn entry_of(disk: DriveModel) -> Seq<char> {
    if devices::holds_system(disk) {
        "  "@ + disk.display_name
            + "  💻 (disco de tu PC — guardá lo recuperado en OTRO disco/USB)"@
    } else {
        "  "@ + disk.display_name
    }
}

/// The entries of a list of disks, and the way back behind them.
pub open spec fn entries_of(disks: Seq<DriveModel>) -> Seq<Seq<char>> {
    disks.map_values(|disk: DriveModel| entry_of(disk)).push("  ↩️  Volver"@)
}

/// The entries of a list of disks, and the way back behind them.
pub fn drive_entries(disks: &[DriveInfo]) -> (entries: Vec<String>)
    ensures
        text::texts(entries@) == entries_of(drives::models(disks@)),
{
    let mut entries: Vec<String> = Vec::new();
    let ghost wanted = entries_of(drives::models(disks@));
    let mut i: usize = 0;
    while i < disks.len()
        invariant
            i <= disks@.len(),
            wanted == entries_of(drives::models(disks@)),
            text::texts(entries@) =~= wanted.take(i as int),
        decreases disks@.len() - i,
    {
        let mut entry = text::owned("  ");
        entry.append(disks[i].display_name.as_str());
        if devices::is_likely_system_disk(&disks[i]) {
            entry.append("  💻 (disco de tu PC — guardá lo recuperado en OTRO disco/USB)");
        }
        assert(entry@ =~= entry_of(disks@[i as int].model()));
        let ghost before = entries@;
        entries.push(entry);
        assert(text::texts(entries@) =~= text::texts(before).push(entry@));
        assert(wanted[i as int] == entry@);
        i = i + 1;
    }
    let ghost before = entries@;
    let back = text::owned("  ↩️  Volver");
    entries.push(back);
    assert(text::texts(entries@) =~= text::texts(before).push(back@));
    assert(text::texts(entries@) =~= wanted);
    entries
}

/// The path of the disk chosen from a list; the entry behind the disks leads back.
pub fn show_drive_list(disks: &[DriveInfo], selection: usize) -> (path: Option<String>)
    ensures
        drives::optional(path) == (if selection < disks@.len() {
            Some(disks@[selection as int].path@)
        } else {
            None
        }),
{
    if selection >= disks.len() {
        None
    } else {
        Some(disks[selection].path.clone())
    }
}

/// The extension is one of a disk image.
pub open spec fn names_image(extension: Seq<char>) -> bool {
    let small = parse::lowered(extension);
    small == "img"@ || small == "dd"@ || small == "raw"@ || small == "iso"@
}

/// Whether the extension is one of a disk image.
pub fn is_image_extension(extension: &str) -> (yes: bool)
    ensures
        yes == names_image(extension@),
{
    let all = text::letters(extension);
    let small = parse::to_lowered(&all);
    parse::is_text(&small, "img") || parse::is_text(&small, "dd") || parse::is_text(&small, "raw")
        || parse::is_text(&small, "iso")
}

/// Entry of a list for an image file.
pub fn image_entry(name: &str, size: u64) -> (entry: String)
    ensures
        entry@ == "  📄 "@ + name@ + " ("@ + util::size_text(size as nat) + ")"@,
{
    let mut entry = text::owned("  📄 ");
    entry.append(name);
    entry.append(" (");
    entry.append(util::format_size(size).as_str());
    entry.append(")");
    entry
}

/// What was chosen from the list of image files.
#[derive(Debug, Clone, Copy, PartialEq, Eq, Structural)]
pub enum ImageChoice {
    /// The image file at this position.
    File(usize),
    /// A path is to be asked for.
    Manual,
    /// Back to the menu.
    Back,
}

/// What was chosen, with `count` image files in the list. Behind them stand the path by hand and
/// the way back. With no image file, only these two are offered, and the second is the way back.
pub fn select_image_file(selection: usize, count: usize) -> (choice: ImageChoice)
    ensures
        choice == (if selection < count {
            ImageChoice::File(selection)
        } else if count == 0 {
            if selection == 1 {
                ImageChoice::Back
            } else {
                ImageChoice::Manual
            }
        } else if selection == count {
            ImageChoice::Manual
        } else {
            ImageChoice::Back
        }),
{
    if selection < count {
        ImageChoice::File(selection)
    } else if count == 0 {
        if selection == 1 {
            ImageChoice::Back
        } else {
            ImageChoice::Manual
        }
    } else if selection == count {
        ImageChoice::Manual
    } else {
        ImageChoice::Back
    }
}

/// What a path written by hand comes to.
#[derive(Debug, Clone, Copy, PartialEq, Eq, Structural)]
pub enum PathAnswer {
    /// Nothing was written: back to the menu.
    Cancelled,
    /// There is nothing at the path.
    Missing,
    /// The path can be used.
    Accepted,
}

/// The answer without the white space around it.
pub fn trim_answer(answer: &str) -> (inner: String)
    ensures
        inner@ == parse::trimmed(answer@),
{
    let all = text::letters(answer);
    text::text_of(parse::trim(&all))
}

/// The path is one of a raw device, which is no file to look for.
pub open spec fn is_raw_path(path: Seq<char>) -> bool {
    text::is_prefix("\\\\.\\"@, path) || text::is_prefix("/dev/"@, path)
}

/// What a path written by hand comes to. `path` is the answer without the white space around it,
/// and `is_there` says whether there is something there. Where raw devices are allowed, they are
/// taken without looking.
pub fn prompt_path_or_cancel(path: &str, allow_raw_device: bool, is_there: bool) -> (answer:
    PathAnswer)
    ensures
        answer == (if path@.len() == 0 {
            PathAnswer::Cancelled
        } else if is_there || (allow_raw_device && is_raw_path(path@)) {
            PathAnswer::Accepted
        } else {
            PathAnswer::Missing
        }),
{
    let all = text::letters(path);
    if all.len() == 0 {
        return PathAnswer::Cancelled;
    }
    let raw = allow_raw_device && (parse::begins(&all, "\\\\.\\") || parse::begins(&all, "/dev/"));
    if !raw && !is_there {
        PathAnswer::Missing
    } else {
        PathAnswer::Accepted
    }
}

/// An image file is told by its extension, in either case: `img`, `dd`, `raw` or `iso`.
pub proof fn law_images_are_told_by_their_extension(extension: Seq<char>)
    ensures
        names_image(extension) == {
            let small = |k: int| parse::lower(extension[k]);
            ||| extension.len() == 3 && small(0) == 'i' && small(1) == 'm' && small(2) == 'g'
            ||| extension.len() == 2 && small(0) == 'd' && small(1) == 'd'
            ||| extension.len() == 3 && small(0) == 'r' && small(1) == 'a' && small(2) == 'w'
            ||| extension.len() == 3 && small(0) == 'i' && small(1) == 's' && small(2) == 'o'
        },
{
    reveal_strlit("img");
    reveal_strlit("dd");
    reveal_strlit("raw");
    reveal_strlit("iso");
    let small = parse::lowered(extension);
    assert("img"@ =~= seq!['i', 'm', 'g']);
    assert("dd"@ =~= seq!['d', 'd']);
    assert("raw"@ =~= seq!['r', 'a', 'w']);
    assert("iso"@ =~= seq!['i', 's', 'o']);
    if extension.len() == 3 {
        assert(small =~= seq![small[0], small[1], small[2]]);
    }
    if extension.len() == 2 {
        assert(small =~= seq![small[0], small[1]]);
    }
}

/// A raw device written by hand starts with `/dev/`, or with two backslashes, a dot and another.
pub proof fn law_raw_paths_are_told_by_their_letters(path: Seq<char>)
    ensures
        is_raw_path(path) == {
            ||| path.len() >= 5 && path[0] == '/' && path[1] == 'd' && path[2] == 'e' && path[3]
                == 'v' && path[4] == '/'
            ||| path.len() >= 4 && path[0] == '\\' && path[1] == '\\' && path[2] == '.' && path[3]
                == '\\'
        },
{
    reveal_strlit("/dev/");
    reveal_strlit("\\\\.\\");
    let (unix, dot) = ("/dev/"@, "\\\\.\\"@);
    assert(unix.len() == 5 && unix[0] == '/' && unix[1] == 'd' && unix[2] == 'e' && unix[3] == 'v'
        && unix[4] == '/');
    assert(dot.len() == 4 && dot[0] == '\\' && dot[1] == '\\' && dot[2] == '.' && dot[3] == '\\');
    text::law_starts_are_told_letter_by_letter(unix, path);
    text::law_starts_are_told_letter_by_letter(dot, path);
}

} // verus!
