//! Disks as `lsblk` reports them.

use vstd::prelude::*;

use crate::drives::{self, DriveInfo, DriveModel};
use crate::parse;
use crate::text;

verus! {

broadcast use vstd::slice::group_slice_axioms;

/// A value of a report whose form depends on the version of the tool.
pub enum JsonValue {
    Text(String),
    /// A number: as it is written, and its value where it is a whole number in range.
    Number(String, Option<i64>),
    Bool(bool),
    /// Anything else, as it is written.
    Other(String),
}

/// A value as it is written.
pub open spec fn written(value: JsonValue) -> Seq<char> {
    match value {
        JsonValue::Text(s) => s@,
        JsonValue::Number(s, _) => s@,
        JsonValue::Bool(b) => if b {
            "true"@
        } else {
            "false"@
        },
        JsonValue::Other(s) => s@,
    }
}

/// The size in a report: a text in old versions of the tool, a number in new ones.
pub fn de_size_flex(value: &Option<JsonValue>) -> (size: Option<String>)
    ensures
        drives::optional(size) == (match value {
            Some(value) => Some(written(*value)),
            None => None,
        }),
{
    match value {
        None => None,
        Some(JsonValue::Text(s)) => Some(s.clone()),
        Some(JsonValue::Number(s, _)) => Some(s.clone()),
        Some(JsonValue::Bool(b)) => Some(text::owned(if *b { "true" } else { "false" })),
        Some(JsonValue::Other(s)) => Some(s.clone()),
    }
}

/// The truth value that a value stands for, if it stands for one.
pub open spec fn truth_of(value: JsonValue) -> Option<bool> {
    match value {
        JsonValue::Bool(b) => Some(b),
        JsonValue::Text(s) => if s@ == "1"@ || s@ == "true"@ {
            Some(true)
        } else if s@ == "0"@ || s@ == "false"@ {
            Some(false)
        } else {
            None
        },
        JsonValue::Number(_, integer) => match integer {
            Some(i) => Some(i != 0),
            None => None,
        },
        JsonValue::Other(_) => None,
    }
}

/// The removable mark in a report: a truth value in new versions of the tool, a text in old ones.
pub fn de_bool_flex(value: &Option<JsonValue>) -> (truth: Option<bool>)
    ensures
        truth == (match value {
            Some(value) => truth_of(*value),
            None => None,
        }),
{
    proof {
        reveal_strlit("1");
        reveal_strlit("true");
        reveal_strlit("0");
        reveal_strlit("false");
        assert("1"@[0] == '1' && "0"@[0] == '0' && "true"@[0] == 't' && "false"@[0] == 'f');
    }
    match value {
        None => None,
        Some(JsonValue::Bool(b)) => Some(*b),
        Some(JsonValue::Text(s)) => {
            if text::same_text(s.as_str(), "1") || text::same_text(s.as_str(), "true") {
                Some(true)
            } else if text::same_text(s.as_str(), "0") || text::same_text(s.as_str(), "false") {
                Some(false)
            } else {
                None
            }
        },
        Some(JsonValue::Number(_, integer)) => match integer {
            Some(i) => Some(*i != 0),
            None => None,
        },
        Some(JsonValue::Other(_)) => None,
    }
}

/// A block device in a report.
pub struct LsblkDevice {
    pub name: String,
    pub size: Option<String>,
    pub dev_type: Option<String>,
    pub rm: Option<bool>,
    pub model: Option<String>,
    /// Mount point of each of its partitions.
    pub child_mounts: Vec<Option<String>>,
}

/// The mount points of the partitions that are mounted, in order.
pub open spec fn mounts_of(list: Seq<Option<String>>) -> Seq<Seq<char>>
    decreases list.len(),
{
    if list.len() == 0 {
        Seq::empty()
    } else {
        let before = mounts_of(list.drop_last());
        match list.last() {
            Some(mount) => if mount@.len() > 0 {
                before.push(mount@)
            } else {
                before
            },
            None => before,
        }
    }
}

/// The mount points of the partitions that are mounted.
fn collect_mounts(list: &Vec<Option<String>>) -> (mounts: Vec<String>)
    ensures
        text::texts(mounts@) == mounts_of(list@),
{
    let mut mounts: Vec<String> = Vec::new();
    let mut i: usize = 0;
    assert(text::texts(mounts@) =~= mounts_of(list@.take(0)));
    while i < list.len()
        invariant
            i <= list@.len(),
            text::texts(mounts@) == mounts_of(list@.take(i as int)),
        decreases list@.len() - i,
    {
        proof {
            assert(list@.take(i as int + 1).drop_last() =~= list@.take(i as int));
            assert(list@.take(i as int + 1).last() == list@[i as int]);
        }
        if let Some(mount) = &list[i] {
            let all = text::letters(mount.as_str());
            if all.len() > 0 {
                let ghost before = mounts@;
                mounts.push(mount.clone());
                assert(text::texts(mounts@) =~= text::texts(before).push(mount@));
            }
        }
        i = i + 1;
    }
    assert(list@.take(list@.len() as int) =~= list@);
    mounts
}

/// The device is a whole disk.
pub open spec fn is_disk(device: LsblkDevice) -> bool {
    device.dev_type is Some && device.dev_type->0@ == "disk"@
}

/// The disk that a block device is.
pub open spec fn disk_of(device: LsblkDevice) -> DriveModel {
    let path = "/dev/"@ + device.name@;
    let model = parse::trimmed(
        match device.model {
            Some(model) => model@,
            None => "Disco desconocido"@,
        },
    );
    let size = match device.size {
        Some(size) => drives::reported_size(size@),
        None => 0,
    };
    let mounts = mounts_of(device.child_mounts@);
    DriveModel {
        path: path,
        display_name: if mounts.len() > 0 {
            drives::shown_name(path, model, size) + " ["@ + mounts[0] + "]"@
        } else {
            drives::shown_name(path, model, size)
        },
        letter: drives::first_text(mounts),
        all_mounts: mounts,
        size_bytes: size,
        is_removable: device.rm is Some && device.rm->0,
    }
}

/// The disks among the block devices, in order.
pub open spec fn disks_of(devices: Seq<LsblkDevice>) -> Seq<DriveModel>
    decreases devices.len(),
{
    if devices.len() == 0 {
        Seq::empty()
    } else {
        let before = disks_of(devices.drop_last());
        if is_disk(devices.last()) {
            before.push(disk_of(devices.last()))
        } else {
            before
        }
    }
}

fn read_disk(device: &LsblkDevice) -> (disk: DriveInfo)
    ensures
        disk.model() == disk_of(*device),
{
    let mut path = text::owned("/dev/");
    path.append(device.name.as_str());
    let named = match &device.model {
        Some(model) => text::letters(model.as_str()),
        None => text::letters("Disco desconocido"),
    };
    let model = text::text_of(parse::trim(&named));
    let size_bytes: u64 = match &device.size {
        Some(size) => {
            let all = text::letters(size.as_str());
            drives::read_size(&all)
        },
        None => 0,
    };
    let all_mounts = collect_mounts(&device.child_mounts);
    let letter = drives::take_first(&all_mounts);
    let mut display_name = drives::show_name(path.as_str(), model.as_str(), size_bytes);
    if let Some(mount) = &letter {
        display_name.append(" [");
        display_name.append(mount.as_str());
        display_name.append("]");
    }
    let is_removable = match device.rm {
        Some(rm) => rm,
        None => false,
    };
    DriveInfo { path, display_name, letter, all_mounts, size_bytes, is_removable }
}

/// The disks among the block devices. Every mount point of a disk is kept, not only the first.
pub fn list_drives_linux(devices: &Vec<LsblkDevice>) -> (list: Vec<DriveInfo>)
    ensures
        drives::models(list@) == disks_of(devices@),
{
    let mut list: Vec<DriveInfo> = Vec::new();
    let mut i: usize = 0;
    assert(drives::models(list@) =~= disks_of(devices@.take(0)));
    while i < devices.len()
        invariant
            i <= devices@.len(),
            drives::models(list@) == disks_of(devices@.take(i as int)),
        decreases devices@.len() - i,
    {
        proof {
            assert(devices@.take(i as int + 1).drop_last() =~= devices@.take(i as int));
            assert(devices@.take(i as int + 1).last() == devices@[i as int]);
        }
        let device = &devices[i];
        let whole = match &device.dev_type {
            Some(kind) => text::same_text(kind.as_str(), "disk"),
            None => false,
        };
        if whole {
            let ghost before = list@;
            list.push(read_disk(device));
            assert(drives::models(list@) =~= drives::models(before).push(disk_of(*device)));
        }
        i = i + 1;
    }
    assert(devices@.take(devices@.len() as int) =~= devices@);
    list
}

/// Every whole disk is listed: by its name under `/dev/`, with its size where that is written as a
/// number, as removable where it is marked so, and with all the mount points of its partitions.
pub proof fn law_whole_disks_are_listed(devices: Seq<LsblkDevice>, i: int, size: nat)
    requires
        0 <= i < devices.len(),
        devices[i].dev_type is Some,
        devices[i].dev_type->0@ == seq!['d', 'i', 's', 'k'],
        devices[i].size is Some,
        devices[i].size->0@ == text::decimal(size),
        size <= u64::MAX,
    ensures
        exists|k: int| 0 <= k < disks_of(devices).len() && {
            let disk = #[trigger] disks_of(devices)[k];
            &&& disk.path == seq!['/', 'd', 'e', 'v', '/'] + devices[i].name@
            &&& disk.size_bytes == size
            &&& disk.is_removable == (devices[i].rm == Some(true))
            &&& disk.all_mounts == mounts_of(devices[i].child_mounts@)
            &&& disk.letter is Some <==> disk.all_mounts.len() > 0
            &&& disk.letter is Some ==> disk.letter->0 == disk.all_mounts[0]
        },
    decreases devices.len(),
{
    reveal_strlit("disk");
    reveal_strlit("/dev/");
    assert("disk"@ =~= seq!['d', 'i', 's', 'k']);
    assert("/dev/"@ =~= seq!['/', 'd', 'e', 'v', '/']);
    parse::law_written_numbers_are_read_back(size, u64::MAX as nat);
    let before = disks_of(devices.drop_last());
    let all = disks_of(devices);
    if i == devices.len() - 1 {
        assert(all[before.len() as int] == disk_of(devices[i]));
    } else {
        assert(devices.drop_last()[i] == devices[i]);
        law_whole_disks_are_listed(devices.drop_last(), i, size);
        let k = choose|k: int| 0 <= k < before.len() && {
            let disk = #[trigger] before[k];
            &&& disk.path == seq!['/', 'd', 'e', 'v', '/'] + devices[i].name@
            &&& disk.size_bytes == size
            &&& disk.is_removable == (devices[i].rm == Some(true))
            &&& disk.all_mounts == mounts_of(devices[i].child_mounts@)
            &&& disk.letter is Some <==> disk.all_mounts.len() > 0
            &&& disk.letter is Some ==> disk.letter->0 == disk.all_mounts[0]
        };
        assert(all[k] == before[k]);
    }
}

/// Nothing but whole disks is listed, and each once.
pub proof fn law_only_whole_disks_are_listed(devices: Seq<LsblkDevice>, k: int)
    requires
        0 <= k < disks_of(devices).len(),
    ensures
        exists|i: int|
            k <= i < devices.len() && (#[trigger] devices[i]).dev_type is Some
                && devices[i].dev_type->0@ == seq!['d', 'i', 's', 'k'] && disks_of(devices)[k].path
                == seq!['/', 'd', 'e', 'v', '/'] + devices[i].name@,
    decreases devices.len(),
{
    reveal_strlit("disk");
    reveal_strlit("/dev/");
    assert("disk"@ =~= seq!['d', 'i', 's', 'k']);
    assert("/dev/"@ =~= seq!['/', 'd', 'e', 'v', '/']);
    let before = disks_of(devices.drop_last());
    lemma_no_more_disks_than_devices(devices.drop_last());
    if k < before.len() {
        law_only_whole_disks_are_listed(devices.drop_last(), k);
        let i = choose|i: int|
            k <= i < devices.drop_last().len() && (#[trigger] devices.drop_last()[i]).dev_type is Some
                && devices.drop_last()[i].dev_type->0@ == seq!['d', 'i', 's', 'k'] && before[k].path
                == seq!['/', 'd', 'e', 'v', '/'] + devices.drop_last()[i].name@;
        assert(devices[i] == devices.drop_last()[i]);
    } else {
        assert(devices[devices.len() - 1] == devices.last());
    }
}

proof fn lemma_no_more_disks_than_devices(devices: Seq<LsblkDevice>)
    ensures
        disks_of(devices).len() <= devices.len(),
    decreases devices.len(),
{
    if devices.len() > 0 {
        lemma_no_more_disks_than_devices(devices.drop_last());
    }
}

/// The mount points of a disk are those of its partitions that have one and name it, and no others.
pub proof fn law_every_mount_point_is_kept(list: Seq<Option<String>>, mount: Seq<char>)
    ensures
        mounts_of(list).contains(mount) <==> mount.len() > 0 && exists|i: int|
            0 <= i < list.len() && (#[trigger] list[i]) is Some && list[i]->0@ == mount,
    decreases list.len(),
{
    if list.len() > 0 {
        let front = list.drop_last();
        law_every_mount_point_is_kept(front, mount);
        let (before, all) = (mounts_of(front), mounts_of(list));
        let last = list[list.len() - 1];
        if before.contains(mount) {
            let k = choose|k: int| 0 <= k < before.len() && before[k] == mount;
            assert(all[k] == mount);
            let i = choose|i: int|
                0 <= i < front.len() && (#[trigger] front[i]) is Some && front[i]->0@ == mount;
            assert(list[i] == front[i]);
        } else {
            if last is Some && last->0@ == mount && mount.len() > 0 {
                assert(all[before.len() as int] == mount);
            }
            assert forall|i: int|
                0 <= i < list.len() && (#[trigger] list[i]) is Some && list[i]->0@ == mount
                    && mount.len() > 0 implies all.contains(mount) by {
                if i < front.len() {
                    assert(front[i] == list[i]);
                }
            }
            if all.contains(mount) {
                let k = choose|k: int| 0 <= k < all.len() && all[k] == mount;
                if k < before.len() {
                    assert(before[k] == mount);
                }
            }
        }
    }
}

/// A mark counts as set or not set by a truth value, by a number, or by the texts that stand for them,
/// and by nothing else.
pub proof fn law_marks_are_told_in_every_form(s: String, written: String, number: i64)
    ensures
        truth_of(JsonValue::Text(s)) == Some(true) <==> s@ == seq!['1'] || s@ == seq![
            't',
            'r',
            'u',
            'e',
        ],
        truth_of(JsonValue::Text(s)) == Some(false) <==> s@ == seq!['0'] || s@ == seq![
            'f',
            'a',
            'l',
            's',
            'e',
        ],
        truth_of(JsonValue::Bool(true)) == Some(true),
        truth_of(JsonValue::Bool(false)) == Some(false),
        truth_of(JsonValue::Number(written, Some(number))) == Some(number != 0),
        truth_of(JsonValue::Number(written, None)) is None,
        truth_of(JsonValue::Other(s)) is None,
{
    reveal_strlit("1");
    reveal_strlit("true");
    reveal_strlit("0");
    reveal_strlit("false");
    assert("1"@ =~= seq!['1'] && "0"@ =~= seq!['0']);
    assert("true"@ =~= seq!['t', 'r', 'u', 'e']);
    assert("false"@ =~= seq!['f', 'a', 'l', 's', 'e']);
    assert(seq!['1'][0] == '1' && seq!['0'][0] == '0' && seq!['t', 'r', 'u', 'e'][0] == 't');
    assert(seq!['f', 'a', 'l', 's', 'e'][0] == 'f');
}

} // verus!
