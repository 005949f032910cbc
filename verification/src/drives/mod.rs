//! The disks of the system, as the tools of each system report them.

pub mod linux;
pub mod macos;
pub mod windows;

use vstd::prelude::*;

use crate::drives::linux::LsblkDevice;
use crate::drives::windows::WmiDisk;
use crate::parse;
use crate::text;
use crate::util;

verus! {

broadcast use vstd::slice::group_slice_axioms;

/// A disk of the system.
pub struct DriveInfo {
    /// Path of the device, such as `\\.\PhysicalDrive1` or `/dev/sdb`.
    pub path: String,
    /// Name to show.
    pub display_name: String,
    /// Drive letter or first mount point, to show.
    pub letter: Option<String>,
    /// All drive letters and mount points of the disk.
    pub all_mounts: Vec<String>,
    /// Size in bytes.
    pub size_bytes: u64,
    /// The disk can be taken out: a memory stick, a card, an external disk.
    pub is_removable: bool,
}

/// A disk, with its texts as sequences of characters.
#[verifier::ext_equal]
pub struct DriveModel {
    pub path: Seq<char>,
    pub display_name: Seq<char>,
    pub letter: Option<Seq<char>>,
    pub all_mounts: Seq<Seq<char>>,
    pub size_bytes: nat,
    pub is_removable: bool,
}

/// An optional text as a sequence of characters.
pub open spec fn optional(value: Option<String>) -> Option<Seq<char>> {
    match value {
        Some(value) => Some(value@),
        None => None,
    }
}

impl DriveInfo {
    /// The disk, with its texts as sequences of characters.
    pub open spec fn model(self) -> DriveModel {
        DriveModel {
            path: self.path@,
            display_name: self.display_name@,
            letter: optional(self.letter),
            all_mounts: text::texts(self.all_mounts@),
            size_bytes: self.size_bytes as nat,
            is_removable: self.is_removable,
        }
    }

    /// A copy of the disk.
    pub fn copy(&self) -> (copy: Self)
        ensures
            copy.model() == self.model(),
    {
        let mut all_mounts: Vec<String> = Vec::new();
        let mut i: usize = 0;
        while i < self.all_mounts.len()
            invariant
                i <= self.all_mounts@.len(),
                text::texts(all_mounts@) =~= text::texts(self.all_mounts@).take(i as int),
            decreases self.all_mounts@.len() - i,
        {
            let ghost before = all_mounts@;
            all_mounts.push(self.all_mounts[i].clone());
            assert(text::texts(all_mounts@) =~= text::texts(before).push(
                self.all_mounts@[i as int]@,
            ));
            i = i + 1;
        }
        let letter = match &self.letter {
            Some(letter) => Some(letter.clone()),
            None => None,
        };
        let copy = DriveInfo {
            path: self.path.clone(),
            display_name: self.display_name.clone(),
            letter,
            all_mounts,
            size_bytes: self.size_bytes,
            is_removable: self.is_removable,
        };
        assert(copy.model().all_mounts =~= self.model().all_mounts);
        copy
    }
}

/// The disks of a list, with their texts as sequences of characters.
pub open spec fn models(list: Seq<DriveInfo>) -> Seq<DriveModel> {
    list.map_values(|one: DriveInfo| one.model())
}

/// The disks that can be taken out, in order.
pub open spec fn removable_of(list: Seq<DriveModel>) -> Seq<DriveModel> {
    list.filter(|one: DriveModel| one.is_removable)
}

/// The disks that can be taken out.
pub fn list_removable(drives: &[DriveInfo]) -> (list: Vec<DriveInfo>)
    ensures
        models(list@) == removable_of(models(drives@)),
{
    let mut list: Vec<DriveInfo> = Vec::new();
    let mut i: usize = 0;
    let ghost all = models(drives@);
    proof {
        reveal(Seq::filter);
        assert(models(list@) =~= removable_of(all.take(0)));
    }
    while i < drives.len()
        invariant
            i <= drives@.len(),
            all == models(drives@),
            models(list@) == removable_of(all.take(i as int)),
        decreases drives@.len() - i,
    {
        proof {
            reveal(Seq::filter);
            assert(all.take(i as int + 1).drop_last() =~= all.take(i as int));
            assert(all.take(i as int + 1).last() == drives@[i as int].model());
        }
        if drives[i].is_removable {
            let ghost before = list@;
            list.push(drives[i].copy());
            assert(models(list@) =~= models(before).push(drives@[i as int].model()));
        }
        i = i + 1;
    }
    assert(all.take(all.len() as int) =~= all);
    list
}

/// Name of a disk to show: what it is called, its model and its size.
pub open spec fn shown_name(name: Seq<char>, model: Seq<char>, size: nat) -> Seq<char> {
    name + " - "@ + model + " ("@ + util::size_text(size) + ")"@
}

/// The name of a disk to show.
pub fn show_name(name: &str, model: &str, size: u64) -> (shown: String)
    ensures
        shown@ == shown_name(name@, model@, size as nat),
{
    let mut shown = text::owned(name);
    shown.append(" - ");
    shown.append(model);
    shown.append(" (");
    shown.append(util::format_size(size).as_str());
    shown.append(")");
    shown
}

/// The size that a report gives; what is no number counts as zero.
pub open spec fn reported_size(size: Seq<char>) -> nat {
    match parse::number_in(size, u64::MAX as nat) {
        Some(n) => n,
        None => 0,
    }
}

/// The size that a report gives.
pub fn read_size(size: &[char]) -> (bytes: u64)
    ensures
        bytes == reported_size(size@),
{
    match parse::parse_number(size, u64::MAX) {
        Some(n) => n,
        None => 0,
    }
}

/// The first text of a list, if there is one.
pub open spec fn first_text(list: Seq<Seq<char>>) -> Option<Seq<char>> {
    if list.len() > 0 {
        Some(list[0])
    } else {
        None
    }
}

/// The first text of the list.
pub fn take_first(list: &Vec<String>) -> (first: Option<String>)
    ensures
        optional(first) == first_text(text::texts(list@)),
{
    if list.len() > 0 {
        Some(list[0].clone())
    } else {
        None
    }
}

/// The number of the user that runs the program, from what the system printed; without a report,
/// that of an ordinary user.
pub open spec fn uid_of(report: Option<Seq<char>>) -> nat {
    match report {
        Some(report) => match parse::number_in(parse::trimmed(report), u32::MAX as nat) {
            Some(uid) => uid,
            None => 1000,
        },
        None => 1000,
    }
}

/// The number of the user that runs the program.
pub fn current_uid(report: Option<&str>) -> (uid: u32)
    ensures
        uid == uid_of(match report {
            Some(report) => Some(report@),
            None => None,
        }),
{
    match report {
        Some(report) => {
            let all = text::letters(report);
            match parse::parse_number(parse::trim(&all), u32::MAX as u64) {
                Some(uid) => uid as u32,
                None => 1000,
            }
        },
        None => 1000,
    }
}

/// The program runs with all rights, by what the system printed.
pub open spec fn has_all_rights(report: Option<Seq<char>>) -> bool {
    uid_of(report) == 0
}

/// Whether the program runs with all rights: only the user with the number zero has them.
pub fn is_admin(report: Option<&str>) -> (yes: bool)
    ensures
        yes == (uid_of(
            match report {
                Some(report) => Some(report@),
                None => None,
            },
        ) == 0),
        yes == has_all_rights(
            match report {
                Some(report) => Some(report@),
                None => None,
            },
        ),
{
    current_uid(report) == 0
}

/// What a tool of the system reported of its disks.
pub enum DriveReport {
    /// Disks and drive letters, from PowerShell.
    PowerShell(Vec<WmiDisk>, Vec<(String, String)>),
    /// Table of disks with commas between the fields, from `wmic`.
    Wmic(String),
    /// Block devices, from `lsblk`.
    Lsblk(Vec<LsblkDevice>),
    /// Device path and description of each disk, from `diskutil`; no description where it failed.
    Diskutil(Vec<(String, Option<String>)>),
    /// No tool gave an answer.
    Nothing,
}

/// The disks in a report.
pub open spec fn drives_in(report: DriveReport) -> Seq<DriveModel> {
    match report {
        DriveReport::PowerShell(disks, letters) => windows::disks_of(disks@, letters@),
        DriveReport::Wmic(table) => windows::table_disks(table@),
        DriveReport::Lsblk(devices) => linux::disks_of(devices@),
        DriveReport::Diskutil(disks) => macos::disks_of(disks@),
        DriveReport::Nothing => Seq::empty(),
    }
}

/// The disks of the system, from what its tools reported.
pub fn list_drives(report: &DriveReport) -> (list: Vec<DriveInfo>)
    ensures
        models(list@) == drives_in(*report),
{
    match report {
        DriveReport::PowerShell(disks, letters) => windows::list_drives_powershell(disks, letters),
        DriveReport::Wmic(table) => windows::list_drives_wmic(table.as_str()),
        DriveReport::Lsblk(devices) => linux::list_drives_linux(devices),
        DriveReport::Diskutil(disks) => macos::list_drives_macos(disks),
        DriveReport::Nothing => {
            let list: Vec<DriveInfo> = Vec::new();
            assert(models(list@) =~= Seq::<DriveModel>::empty());
            list
        },
    }
}

/// Only disks that can be taken out are offered as such, and each of them is.
pub proof fn law_removable_disks_are_offered(list: Seq<DriveModel>, one: DriveModel)
    ensures
        removable_of(list).contains(one) <==> list.contains(one) && one.is_removable,
    decreases list.len(),
{
    reveal(Seq::filter);
    if list.len() > 0 {
        let front = list.drop_last();
        law_removable_disks_are_offered(front, one);
        assert(list =~= front.push(list.last()));
        assert(list.contains(one) <==> front.contains(one) || one == list.last()) by {
            if front.contains(one) {
                let i = choose|i: int| 0 <= i < front.len() && front[i] == one;
                assert(list[i] == one);
            }
            assert(list[list.len() - 1] == list.last());
        }
        let kept = removable_of(front);
        assert(kept.push(list.last()).contains(one) <==> kept.contains(one) || one == list.last())
            by {
            let more = kept.push(list.last());
            if kept.contains(one) {
                let i = choose|i: int| 0 <= i < kept.len() && kept[i] == one;
                assert(more[i] == one);
            }
            assert(more[kept.len() as int] == list.last());
        }
    }
}

/// The number of the user is read from what the system printed, with blanks and line ends around it.
/// All rights go with the number zero, and with nothing else: not with a report that is missing or is
/// no number.
pub proof fn law_all_rights_go_with_zero(before: Seq<char>, uid: u32, after: Seq<char>)
    requires
        forall|k: int| 0 <= k < before.len() ==> parse::white_space(#[trigger] before[k]),
        forall|k: int| 0 <= k < after.len() ==> parse::white_space(#[trigger] after[k]),
    ensures
        uid_of(Some(before + text::decimal(uid as nat) + after)) == uid,
        has_all_rights(Some(before + text::decimal(uid as nat) + after)) <==> uid == 0,
        !has_all_rights(None),
        !has_all_rights(Some(before)),
{
    let digits = text::decimal(uid as nat);
    parse::law_written_numbers_are_read_back(uid as nat, u32::MAX as nat);
    assert(parse::is_digit(digits[0]) && parse::is_digit(digits[digits.len() - 1]));
    parse::law_blanks_around_are_cut(before, digits, after);
    parse::law_nothing_is_left_of_blanks(before);
}

} // verus!
