//! Which disk a path belongs to, and whether the output would land on the disk being read.

use vstd::prelude::*;
use vstd::slice::slice_subrange;

use crate::drives::{self, DriveInfo, DriveModel};
use crate::parse;
use crate::text;
use crate::util;

verus! {

broadcast use vstd::slice::group_slice_axioms;

/// The character is an ASCII letter.
pub open spec fn is_letter(c: char) -> bool {
    ('a' <= c <= 'z') || ('A' <= c <= 'Z')
}

/// Every character is an ASCII letter.
pub open spec fn all_letters(s: Seq<char>) -> bool {
    forall|i: int| 0 <= i < s.len() ==> is_letter(#[trigger] s[i])
}

fn has_letters_only(s: &[char]) -> (yes: bool)
    ensures
        yes == all_letters(s@),
{
    let mut i: usize = 0;
    while i < s.len()
        invariant
            i <= s@.len(),
            forall|k: int| 0 <= k < i ==> is_letter(#[trigger] s@[k]),
        decreases s@.len() - i,
    {
        let c = s[i];
        if !(('a' <= c && c <= 'z') || ('A' <= c && c <= 'Z')) {
            assert(!is_letter(s@[i as int]));
            return false;
        }
        i = i + 1;
    }
    true
}

/// The name starts as that of a disk whose name has no number, so that a number behind it is that
/// of a partition.
pub open spec fn is_lettered_family(name: Seq<char>) -> bool {
    ||| text::is_prefix("sd"@, name)
    ||| text::is_prefix("hd"@, name)
    ||| text::is_prefix("vd"@, name)
    ||| text::is_prefix("xvd"@, name)
}

/// What stands before the number that a name ends in.
pub open spec fn before_number(name: Seq<char>) -> Seq<char> {
    name.take(name.len() - parse::trailing_digits(name).len())
}

/// The disk that a device name of macOS behind `/dev/disk` belongs to: `2s1` is partition 1 of
/// disk 2.
pub open spec fn macos_disk(name: Seq<char>) -> Seq<char> {
    let head = before_number(name);
    if parse::trailing_digits(name).len() > 0 && head.len() >= 2 && head.last() == 's'
        && parse::all_digits(head.drop_last()) {
        head.drop_last()
    } else {
        name
    }
}

/// The disk that a device name of Linux belongs to. Where the name of a disk ends in a number, `p`
/// stands between it and the number of a partition: `nvme0n1p2` is on `nvme0n1`. Otherwise the
/// number follows at once: `sdb1` is on `sdb`.
pub open spec fn linux_disk(name: Seq<char>) -> Seq<char> {
    let head = before_number(name);
    if parse::trailing_digits(name).len() == 0 {
        name
    } else if head.len() >= 2 && head.last() == 'p' && parse::is_digit(head[head.len() - 2]) {
        head.drop_last()
    } else if all_letters(head) && is_lettered_family(head) {
        head
    } else {
        name
    }
}

/// The path of the whole disk that a path belongs to. What is not known to be a partition stays as
/// it is.
pub open spec fn whole_disk_of(path: Seq<char>) -> Seq<char> {
    if text::is_prefix("/dev/disk"@, path) {
        "/dev/disk"@ + macos_disk(path.skip(9))
    } else if text::is_prefix("/dev/"@, path) {
        "/dev/"@ + linux_disk(path.skip(5))
    } else {
        path
    }
}

/// The number at the end of a name is part of it.
pub proof fn lemma_trailing_digits_fit(name: Seq<char>)
    ensures
        parse::trailing_digits(name).len() <= name.len(),
        name == before_number(name) + parse::trailing_digits(name),
        parse::all_digits(parse::trailing_digits(name)),
    decreases name.len(),
{
    if name.len() > 0 && parse::is_digit(name.last()) {
        let front = name.drop_last();
        lemma_trailing_digits_fit(front);
        assert(before_number(name) =~= before_number(front));
        assert(name =~= front.push(name.last()));
        assert(before_number(front) + parse::trailing_digits(front).push(name.last()) =~= (
        before_number(front) + parse::trailing_digits(front)).push(name.last()));
        assert(name =~= before_number(name) + parse::trailing_digits(name));
    } else {
        assert(name =~= before_number(name) + parse::trailing_digits(name));
    }
}

/// How much of a device name of Linux names its disk.
fn linux_disk_len(name: &[char]) -> (len: usize)
    ensures
        len <= name@.len(),
        name@.take(len as int) == linux_disk(name@),
{
    proof {
        lemma_trailing_digits_fit(name@);
    }
    let number: usize = parse::digits_at_end(name).len();
    let count: usize = name.len();
    assert(name@.take(count as int) =~= name@);
    if number == 0 {
        return count;
    }
    let head_len: usize = count - number;
    let head = slice_subrange(name, 0, head_len);
    assert(head@ =~= before_number(name@));
    if head_len >= 2 && head[head_len - 1] == 'p' && '0' <= head[head_len - 2] && head[head_len
        - 2] <= '9' {
        assert(head@.drop_last() =~= name@.take(head_len - 1));
        return head_len - 1;
    }
    if has_letters_only(head) && (parse::begins(head, "sd") || parse::begins(head, "hd")
        || parse::begins(head, "vd") || parse::begins(head, "xvd")) {
        return head_len;
    }
    count
}

/// How much of a device name of macOS names its disk.
fn macos_disk_len(name: &[char]) -> (len: usize)
    ensures
        len <= name@.len(),
        name@.take(len as int) == macos_disk(name@),
{
    proof {
        lemma_trailing_digits_fit(name@);
    }
    let number: usize = parse::digits_at_end(name).len();
    let count: usize = name.len();
    assert(name@.take(count as int) =~= name@);
    let head_len: usize = count - number;
    let head = slice_subrange(name, 0, head_len);
    assert(head@ =~= before_number(name@));
    if number > 0 && head_len >= 2 && head[head_len - 1] == 's' {
        let disk = slice_subrange(name, 0, head_len - 1);
        assert(head@.drop_last() =~= disk@);
        assert(name@.take(head_len - 1) =~= disk@);
        if parse::has_digits_only(disk) {
            return head_len - 1;
        }
    }
    count
}

/// The path of the whole disk that a path belongs to.
pub fn normalize_to_whole_disk(path: &str) -> (disk: String)
    ensures
        disk@ == whole_disk_of(path@),
{
    proof {
        reveal_strlit("/dev/disk");
        reveal_strlit("/dev/");
    }
    let all = text::letters(path);
    let count: usize = all.len();
    if parse::begins(&all, "/dev/disk") {
        let name = slice_subrange(&all, 9, count);
        assert(name@ =~= path@.skip(9));
        let len: usize = macos_disk_len(name);
        let disk = text::text_of(slice_subrange(&all, 0, 9 + len));
        assert(disk@ =~= path@.take(9) + name@.take(len as int));
        return disk;
    }
    if parse::begins(&all, "/dev/") {
        let name = slice_subrange(&all, 5, count);
        assert(name@ =~= path@.skip(5));
        let len: usize = linux_disk_len(name);
        let disk = text::text_of(slice_subrange(&all, 0, 5 + len));
        assert(disk@ =~= path@.take(5) + name@.take(len as int));
        return disk;
    }
    text::owned(path)
}

/// The path of the whole disk is the start of the path: at most its end is cut off.
pub proof fn law_whole_disk_starts_the_path(path: Seq<char>)
    ensures
        text::is_prefix(whole_disk_of(path), path),
{
    reveal_strlit("/dev/disk");
    reveal_strlit("/dev/");
    if text::is_prefix("/dev/disk"@, path) {
        let name = path.skip(9);
        lemma_trailing_digits_fit(name);
        assert(path =~= "/dev/disk"@ + name);
        assert(path.take(whole_disk_of(path).len() as int) =~= whole_disk_of(path));
    } else if text::is_prefix("/dev/"@, path) {
        let name = path.skip(5);
        lemma_trailing_digits_fit(name);
        assert(path =~= "/dev/"@ + name);
        assert(path.take(whole_disk_of(path).len() as int) =~= whole_disk_of(path));
    } else {
        assert(path.take(path.len() as int) =~= path);
    }
}

/// Digits behind something that does not end in a digit are the number at the end.
pub proof fn lemma_number_at_the_end(head: Seq<char>, number: Seq<char>)
    requires
        parse::all_digits(number),
        head.len() > 0 ==> !parse::is_digit(head.last()),
    ensures
        parse::trailing_digits(head + number) == number,
        before_number(head + number) == head,
    decreases number.len(),
{
    if number.len() == 0 {
        assert(head + number =~= head);
        assert(before_number(head) =~= head);
        assert(parse::trailing_digits(head) =~= number);
    } else {
        let whole = head + number;
        assert(parse::is_digit(number.last()));
        lemma_number_at_the_end(head, number.drop_last());
        assert(whole.drop_last() =~= head + number.drop_last());
        assert(number =~= number.drop_last().push(number.last()));
        assert(before_number(whole) =~= head);
    }
}

/// A partition of a disk whose name is letters only belongs to that disk, whatever its number; the
/// disk itself stays as it is.
pub proof fn law_lettered_disks(name: Seq<char>, number: Seq<char>)
    requires
        all_letters(name),
        is_lettered_family(name),
        parse::all_digits(number),
    ensures
        whole_disk_of("/dev/"@ + name + number) == "/dev/"@ + name,
{
    reveal_strlit("/dev/disk");
    reveal_strlit("/dev/");
    reveal_strlit("sd");
    reveal_strlit("hd");
    reveal_strlit("vd");
    reveal_strlit("xvd");
    let path = "/dev/"@ + name + number;
    let first: char = if text::is_prefix("sd"@, name) {
        's'
    } else if text::is_prefix("hd"@, name) {
        'h'
    } else if text::is_prefix("vd"@, name) {
        'v'
    } else {
        'x'
    };
    assert(name[0] == first) by {
        if text::is_prefix("sd"@, name) {
            assert(name.take(2)[0] == 's');
        } else if text::is_prefix("hd"@, name) {
            assert(name.take(2)[0] == 'h');
        } else if text::is_prefix("vd"@, name) {
            assert(name.take(2)[0] == 'v');
        } else {
            assert(name.take(3)[0] == 'x');
        }
    }
    assert(path[5] == first);
    assert(!text::is_prefix("/dev/disk"@, path)) by {
        if text::is_prefix("/dev/disk"@, path) {
            assert(path.take(9)[5] == 'd');
        }
    }
    assert(path.take(5) =~= "/dev/"@);
    assert(path.skip(5) =~= name + number);
    assert(is_letter(name.last()));
    lemma_number_at_the_end(name, number);
    if number.len() == 0 {
        assert(name + number =~= name);
    }
    assert(name.len() >= 2 ==> is_letter(name[name.len() - 2]));
}

/// A partition of a disk whose name ends in a number belongs to that disk.
pub proof fn law_numbered_disks(disk: Seq<char>, number: Seq<char>)
    requires
        disk.len() > 0,
        parse::is_digit(disk.last()),
        !text::is_prefix("disk"@, disk),
        parse::all_digits(number),
        number.len() > 0,
    ensures
        whole_disk_of("/dev/"@ + disk + seq!['p'] + number) == "/dev/"@ + disk,
{
    reveal_strlit("/dev/disk");
    reveal_strlit("/dev/");
    reveal_strlit("disk");
    let path = "/dev/"@ + disk + seq!['p'] + number;
    let head = disk.push('p');
    assert(!text::is_prefix("/dev/disk"@, path)) by {
        if text::is_prefix("/dev/disk"@, path) {
            let start = path.take(9);
            assert(start[5] == 'd' && start[6] == 'i' && start[7] == 's' && start[8] == 'k');
            assert(path[5] == 'd' && path[6] == 'i' && path[7] == 's' && path[8] == 'k');
            if disk.len() >= 4 {
                assert(disk.take(4) =~= "disk"@);
            } else if disk.len() == 3 {
                assert(path[8] == 'p');
            } else if disk.len() == 2 {
                assert(path[7] == 'p');
            } else {
                assert(path[6] == 'p');
            }
        }
    }
    assert(path.take(5) =~= "/dev/"@);
    assert(path.skip(5) =~= head + number);
    lemma_number_at_the_end(head, number);
    assert(head.drop_last() =~= disk);
}

/// A disk of another family stays as it is, though its name ends in a number: `mmcblk0`, `loop0`
/// and the like have the number in the name of the whole disk.
pub proof fn law_other_families_stay(name: Seq<char>, number: Seq<char>)
    requires
        all_letters(name),
        !is_lettered_family(name),
        !text::is_prefix("disk"@, name),
        parse::all_digits(number),
    ensures
        whole_disk_of("/dev/"@ + name + number) == "/dev/"@ + name + number,
{
    reveal_strlit("/dev/disk");
    reveal_strlit("/dev/");
    reveal_strlit("disk");
    let path = "/dev/"@ + name + number;
    assert(!text::is_prefix("/dev/disk"@, path)) by {
        if text::is_prefix("/dev/disk"@, path) {
            let start = path.take(9);
            assert(start[5] == 'd' && start[6] == 'i' && start[7] == 's' && start[8] == 'k');
            assert(path[5] == 'd' && path[6] == 'i' && path[7] == 's' && path[8] == 'k');
            if name.len() >= 4 {
                assert(name.take(4) =~= "disk"@);
            } else {
                let k = name.len() as int;
                assert(path[5 + k] == number[0]);
                assert(parse::is_digit(number[0]));
            }
        }
    }
    assert(path.take(5) =~= "/dev/"@);
    assert(path.skip(5) =~= name + number);
    assert(name.len() > 0 ==> is_letter(name.last()));
    lemma_number_at_the_end(name, number);
    assert(name.len() >= 2 ==> is_letter(name[name.len() - 2]));
    assert(path =~= "/dev/"@ + (name + number));
}

/// A partition of a disk of macOS belongs to that disk; the disk itself stays as it is.
pub proof fn law_macos_disks(disk: Seq<char>, number: Seq<char>)
    requires
        disk.len() > 0,
        parse::all_digits(disk),
        parse::all_digits(number),
        number.len() > 0,
    ensures
        whole_disk_of("/dev/disk"@ + disk + seq!['s'] + number) == "/dev/disk"@ + disk,
        whole_disk_of("/dev/disk"@ + disk) == "/dev/disk"@ + disk,
{
    reveal_strlit("/dev/disk");
    let path = "/dev/disk"@ + disk + seq!['s'] + number;
    let head = disk.push('s');
    assert(path.take(9) =~= "/dev/disk"@);
    assert(path.skip(9) =~= head + number);
    lemma_number_at_the_end(head, number);
    assert(head.drop_last() =~= disk);
    let whole = "/dev/disk"@ + disk;
    assert(whole.take(9) =~= "/dev/disk"@);
    assert(whole.skip(9) =~= disk);
    lemma_number_at_the_end(Seq::<char>::empty(), disk);
    assert(Seq::<char>::empty() + disk =~= disk);
}

/// A path that is not under `/dev/` stays as it is.
pub proof fn law_other_paths_stay(path: Seq<char>)
    requires
        !text::is_prefix("/dev/"@, path),
    ensures
        whole_disk_of(path) == path,
{
    reveal_strlit("/dev/disk");
    reveal_strlit("/dev/");
    if text::is_prefix("/dev/disk"@, path) {
        assert(path.take(5) =~= path.take(9).take(5));
        assert("/dev/disk"@.take(5) =~= "/dev/"@);
    }
}

/// The mount point is that of the system: drive `C:` of Windows or the root elsewhere.
pub open spec fn is_system_mount(mount: Seq<char>) -> bool {
    parse::lowered(mount) == parse::lowered("C:"@) || mount == "/"@
}

/// The disk holds the system, by one of its mount points.
pub open spec fn holds_system(disk: DriveModel) -> bool {
    exists|i: int| 0 <= i < disk.all_mounts.len() && is_system_mount(#[trigger] disk.all_mounts[i])
}

/// Whether the disk probably holds the system. Such a disk may be read like any other; it is marked
/// so that nobody saves to it.
pub fn is_likely_system_disk(disk: &DriveInfo) -> (yes: bool)
    ensures
        yes == holds_system(disk.model()),
{
    let drive = text::letters("C:");
    let mut i: usize = 0;
    while i < disk.all_mounts.len()
        invariant
            i <= disk.all_mounts@.len(),
            drive@ == "C:"@,
            forall|k: int|
                0 <= k < i ==> !is_system_mount(#[trigger] disk.model().all_mounts[k]),
        decreases disk.all_mounts@.len() - i,
    {
        let mount = text::letters(disk.all_mounts[i].as_str());
        assert(disk.model().all_mounts[i as int] == mount@);
        if parse::same_ignoring_case(&mount, &drive) || parse::is_text(&mount, "/") {
            return true;
        }
        i = i + 1;
    }
    false
}

/// Position of the first disk with this path, whatever the case of its letters.
pub open spec fn disk_with(disks: Seq<DriveModel>, path: Seq<char>) -> Option<int>
    decreases disks.len(),
{
    if disks.len() == 0 {
        None
    } else {
        match disk_with(disks.drop_last(), path) {
            Some(i) => Some(i),
            None => if parse::lowered(disks.last().path) == parse::lowered(path) {
                Some(disks.len() - 1)
            } else {
                None
            },
        }
    }
}

fn find_disk(disks: &[DriveInfo], path: &[char]) -> (at: Option<usize>)
    ensures
        match disk_with(drives::models(disks@), path@) {
            Some(i) => at == Some(i as usize) && 0 <= i < disks@.len(),
            None => at is None,
        },
{
    let ghost all = drives::models(disks@);
    let mut i: usize = 0;
    while i < disks.len()
        invariant
            i <= disks@.len(),
            all == drives::models(disks@),
            disk_with(all.take(i as int), path@) is None,
        decreases disks@.len() - i,
    {
        proof {
            assert(all.take(i as int + 1).drop_last() =~= all.take(i as int));
            assert(all.take(i as int + 1).last() == disks@[i as int].model());
        }
        let name = text::letters(disks[i].path.as_str());
        if parse::same_ignoring_case(&name, path) {
            proof {
                lemma_first_disk_stays(all, path@, i as int + 1);
            }
            return Some(i);
        }
        i = i + 1;
    }
    assert(all.take(all.len() as int) =~= all);
    None
}

/// More disks behind it do not change which disk is the first.
proof fn lemma_first_disk_stays(disks: Seq<DriveModel>, path: Seq<char>, n: int)
    requires
        0 <= n <= disks.len(),
        disk_with(disks.take(n), path) is Some,
    ensures
        disk_with(disks, path) == disk_with(disks.take(n), path),
    decreases disks.len(),
{
    if n == disks.len() {
        assert(disks.take(n) =~= disks);
    } else {
        assert(disks.drop_last().take(n) =~= disks.take(n));
        lemma_first_disk_stays(disks.drop_last(), path, n);
    }
}

/// The disk that a source belongs to: the one with its very path, otherwise the whole disk around
/// it.
pub open spec fn source_disk(source: Seq<char>, disks: Seq<DriveModel>) -> Option<int> {
    match disk_with(disks, source) {
        Some(i) => Some(i),
        None => disk_with(disks, whole_disk_of(source)),
    }
}

/// The texts of a list that hold more than white space.
pub open spec fn not_blank(list: Seq<Seq<char>>) -> Seq<Seq<char>> {
    list.filter(|one: Seq<char>| parse::trimmed(one).len() > 0)
}

/// The mount points of the disk that a source belongs to; none where the disk is not known.
pub open spec fn mounts_around(source: Seq<char>, disks: Seq<DriveModel>) -> Seq<Seq<char>> {
    match source_disk(source, disks) {
        Some(i) => not_blank(disks[i].all_mounts),
        None => Seq::empty(),
    }
}

fn keep_filled(list: &Vec<String>) -> (kept: Vec<String>)
    ensures
        text::texts(kept@) == not_blank(text::texts(list@)),
{
    let ghost all = text::texts(list@);
    let mut kept: Vec<String> = Vec::new();
    let mut i: usize = 0;
    proof {
        reveal(Seq::filter);
        assert(text::texts(kept@) =~= not_blank(all.take(0)));
    }
    while i < list.len()
        invariant
            i <= list@.len(),
            all == text::texts(list@),
            text::texts(kept@) == not_blank(all.take(i as int)),
        decreases list@.len() - i,
    {
        proof {
            reveal(Seq::filter);
            assert(all.take(i as int + 1).drop_last() =~= all.take(i as int));
            assert(all.take(i as int + 1).last() == list@[i as int]@);
        }
        let one = text::letters(list[i].as_str());
        if parse::trim(&one).len() > 0 {
            let ghost before = kept@;
            kept.push(list[i].clone());
            assert(text::texts(kept@) =~= text::texts(before).push(list@[i as int]@));
        }
        i = i + 1;
    }
    assert(all.take(all.len() as int) =~= all);
    kept
}

/// The mount points of the disk that a source belongs to.
pub fn source_mounts(source_path: &str, disks: &[DriveInfo]) -> (mounts: Vec<String>)
    ensures
        text::texts(mounts@) == mounts_around(source_path@, drives::models(disks@)),
{
    let source = text::letters(source_path);
    let whole = text::letters(normalize_to_whole_disk(source_path).as_str());
    let found = match find_disk(disks, &source) {
        Some(i) => Some(i),
        None => find_disk(disks, &whole),
    };
    match found {
        Some(i) => keep_filled(&disks[i].all_mounts),
        None => {
            let none: Vec<String> = Vec::new();
            assert(text::texts(none@) =~= Seq::<Seq<char>>::empty());
            none
        },
    }
}

/// A path without the slashes at its end.
pub open spec fn without_end_slashes(s: Seq<char>) -> Seq<char>
    decreases s.len(),
{
    if s.len() > 0 && s.last() == '/' {
        without_end_slashes(s.drop_last())
    } else {
        s
    }
}

fn cut_end_slashes(s: &[char]) -> (cut: &[char])
    ensures
        cut@ == without_end_slashes(s@),
{
    let mut to: usize = s.len();
    assert(s@.take(to as int) =~= s@);
    while to > 0 && s[to - 1] == '/'
        invariant
            to <= s@.len(),
            without_end_slashes(s@) == without_end_slashes(s@.take(to as int)),
        decreases to,
    {
        assert(s@.take(to as int).drop_last() =~= s@.take(to - 1));
        to = to - 1;
    }
    assert(s@.subrange(0, to as int) =~= s@.take(to as int));
    slice_subrange(s, 0, to)
}

/// The output lies at or below the mount point, by its path. Both kinds of slash count alike.
pub open spec fn lies_under(output: Seq<char>, mount: Seq<char>) -> bool {
    let place = parse::replaced(output, '\\', '/');
    let point = parse::replaced(mount, '\\', '/');
    let stem = without_end_slashes(point);
    ||| place == point
    ||| place == stem
    ||| stem.len() > 0 && text::is_prefix(stem.push('/'), place)
}

/// Whether the output lies at or below the mount point, by its path.
pub fn is_under(output: &str, mount: &str) -> (yes: bool)
    ensures
        yes == lies_under(output@, mount@),
{
    let given = text::letters(output);
    let place = parse::replace(&given, '\\', '/');
    let given = text::letters(mount);
    let point = parse::replace(&given, '\\', '/');
    let stem = cut_end_slashes(&point);
    let shown = text::text_of(&point);
    if parse::is_text(&place, shown.as_str()) {
        return true;
    }
    let mut start = text::text_of(stem);
    if parse::is_text(&place, start.as_str()) {
        return true;
    }
    start.push('/');
    stem.len() > 0 && parse::begins(&place, start.as_str())
}

/// The output is on the same disk as the mount point, by its path or by the volume that the system
/// has both on.
pub open spec fn on_mount(output: Seq<char>, mount: Seq<char>, same_volume: Option<bool>) -> bool {
    lies_under(output, mount) || same_volume == Some(true)
}

/// What the system said of the volume of a mount point.
pub open spec fn volume_at(volumes: Seq<Option<bool>>, i: int) -> Option<bool> {
    if i < volumes.len() {
        volumes[i]
    } else {
        None
    }
}

/// The first mount point, from position `i` on, whose disk the output is on.
pub open spec fn shared_mount(
    output: Seq<char>,
    mounts: Seq<Seq<char>>,
    volumes: Seq<Option<bool>>,
    i: int,
) -> Option<Seq<char>>
    decreases mounts.len() - i,
{
    if i >= mounts.len() {
        None
    } else if on_mount(output, mounts[i], volume_at(volumes, i)) {
        Some(mounts[i])
    } else {
        shared_mount(output, mounts, volumes, i + 1)
    }
}

/// The warning that the disk of the output could not be made out.
pub open spec fn doubt_text(source: Seq<char>) -> Seq<char> {
    "  ⚠️  No pudimos confirmar que la carpeta de salida esté en un disco distinto al que estás escaneando ("@
        + source
        + ").\n     Por las dudas, fijate que la carpeta de salida NO esté en ese mismo disco/USB — si no, podrías perder para siempre justo lo que estás tratando de recuperar."@
}

/// The warning that the output is on the disk being read.
pub open spec fn shared_text(mount: Seq<char>) -> Seq<char> {
    "  ⚠️  La carpeta de salida está en el mismo disco que estás escaneando ("@ + mount
        + ").\n     Si guardás ahí, podrías perder para siempre justo los archivos que estás tratando de recuperar. Elegí otra carpeta, idealmente en otro disco."@
}

/// The warning for an output, if one is due. A disk whose mount points are not known might be any,
/// so it is warned of.
pub open spec fn warning_of(
    source: Seq<char>,
    output: Seq<char>,
    mounts: Seq<Seq<char>>,
    volumes: Seq<Option<bool>>,
) -> Option<Seq<char>> {
    if !util::names_device(source) {
        None
    } else if mounts.len() == 0 {
        Some(doubt_text(source))
    } else {
        match shared_mount(output, mounts, volumes, 0) {
            Some(mount) => Some(shared_text(mount)),
            None => None,
        }
    }
}

/// The warning that saving to `output` would overwrite what is to be recovered, if it is due.
/// `mounts` are the mount points of the disk of the source, and `volumes` says of each whether the
/// output is on its volume, as far as the system could tell.
pub fn same_device_warning(
    source_path: &str,
    output: &str,
    mounts: &[String],
    volumes: &[Option<bool>],
) -> (warning: Option<String>)
    ensures
        drives::optional(warning) == warning_of(
            source_path@,
            output@,
            text::texts(mounts@),
            volumes@,
        ),
{
    if !util::is_physical_device(source_path) {
        return None;
    }
    let ghost all = text::texts(mounts@);
    if mounts.len() == 0 {
        let mut words = text::owned(
            "  ⚠️  No pudimos confirmar que la carpeta de salida esté en un disco distinto al que estás escaneando (",
        );
        words.append(source_path);
        words.append(
            ").\n     Por las dudas, fijate que la carpeta de salida NO esté en ese mismo disco/USB — si no, podrías perder para siempre justo lo que estás tratando de recuperar.",
        );
        return Some(words);
    }
    let mut i: usize = 0;
    while i < mounts.len()
        invariant
            i <= mounts@.len(),
            all == text::texts(mounts@),
            shared_mount(output@, all, volumes@, 0) == shared_mount(
                output@,
                all,
                volumes@,
                i as int,
            ),
            util::names_device(source_path@),
            all.len() > 0,
        decreases mounts@.len() - i,
    {
        let same_volume = if i < volumes.len() {
            match volumes[i] {
                Some(same) => same,
                None => false,
            }
        } else {
            false
        };
        assert(all[i as int] == mounts@[i as int]@);
        if is_under(output, mounts[i].as_str()) || same_volume {
            let mut words = text::owned(
                "  ⚠️  La carpeta de salida está en el mismo disco que estás escaneando (",
            );
            words.append(mounts[i].as_str());
            words.append(
                ").\n     Si guardás ahí, podrías perder para siempre justo los archivos que estás tratando de recuperar. Elegí otra carpeta, idealmente en otro disco.",
            );
            return Some(words);
        }
        i = i + 1;
    }
    None
}

/// An image file is never the disk being written to, so it brings no warning.
pub proof fn law_images_bring_no_warning(
    source: Seq<char>,
    output: Seq<char>,
    mounts: Seq<Seq<char>>,
    volumes: Seq<Option<bool>>,
)
    requires
        !util::names_device(source),
    ensures
        warning_of(source, output, mounts, volumes) is None,
{
}

/// An output on the disk being read always brings a warning, whichever of its mount points it is
/// on.
pub proof fn law_same_disk_brings_a_warning(
    source: Seq<char>,
    output: Seq<char>,
    mounts: Seq<Seq<char>>,
    volumes: Seq<Option<bool>>,
    i: int,
)
    requires
        util::names_device(source),
        0 <= i < mounts.len(),
        on_mount(output, mounts[i], volume_at(volumes, i)),
    ensures
        warning_of(source, output, mounts, volumes) is Some,
{
    lemma_shared_from(output, mounts, volumes, 0, i);
}

proof fn lemma_shared_from(
    output: Seq<char>,
    mounts: Seq<Seq<char>>,
    volumes: Seq<Option<bool>>,
    from: int,
    i: int,
)
    requires
        0 <= from <= i < mounts.len(),
        on_mount(output, mounts[i], volume_at(volumes, i)),
    ensures
        shared_mount(output, mounts, volumes, from) is Some,
    decreases i - from,
{
    if from < i && !on_mount(output, mounts[from], volume_at(volumes, from)) {
        lemma_shared_from(output, mounts, volumes, from + 1, i);
    }
}

/// A disk without known mount points always brings a warning.
pub proof fn law_unknown_disk_brings_a_warning(
    source: Seq<char>,
    output: Seq<char>,
    volumes: Seq<Option<bool>>,
)
    requires
        util::names_device(source),
    ensures
        warning_of(source, output, Seq::empty(), volumes) == Some(doubt_text(source)),
{
}

/// A disk mounted at the root does not take in every path: only the root itself lies under it by
/// its path.
pub proof fn law_root_takes_in_itself_only(output: Seq<char>)
    ensures
        lies_under(output, "/"@) <==> parse::replaced(output, '\\', '/') == "/"@ || output
            == ""@,
{
    reveal_strlit("/");
    reveal_strlit("");
    let root = parse::replaced("/"@, '\\', '/');
    assert(root =~= "/"@);
    assert("/"@.drop_last() =~= Seq::<char>::empty());
    reveal_with_fuel(without_end_slashes, 2);
    assert(without_end_slashes(root) == Seq::<char>::empty());
    let place = parse::replaced(output, '\\', '/');
    assert(place.len() == output.len());
    if output.len() == 0 {
        assert(place =~= Seq::<char>::empty());
        assert(output =~= ""@);
    }
    if output == ""@ {
        assert(place =~= Seq::<char>::empty());
    }
}

/// Disks whose names have no number are those that start with `sd`, `hd`, `vd` or `xvd`.
pub proof fn law_families_are_told_by_their_letters(name: Seq<char>)
    ensures
        is_lettered_family(name) == {
            ||| name.len() >= 2 && (name[0] == 's' || name[0] == 'h' || name[0] == 'v') && name[1]
                == 'd'
            ||| name.len() >= 3 && name[0] == 'x' && name[1] == 'v' && name[2] == 'd'
        },
{
    reveal_strlit("sd");
    reveal_strlit("hd");
    reveal_strlit("vd");
    reveal_strlit("xvd");
    let (s, h, v, x) = ("sd"@, "hd"@, "vd"@, "xvd"@);
    assert(s.len() == 2 && s[0] == 's' && s[1] == 'd');
    assert(h.len() == 2 && h[0] == 'h' && h[1] == 'd');
    assert(v.len() == 2 && v[0] == 'v' && v[1] == 'd');
    assert(x.len() == 3 && x[0] == 'x' && x[1] == 'v' && x[2] == 'd');
    text::law_starts_are_told_letter_by_letter(s, name);
    text::law_starts_are_told_letter_by_letter(h, name);
    text::law_starts_are_told_letter_by_letter(v, name);
    text::law_starts_are_told_letter_by_letter(x, name);
}

/// The system is at home on drive C, in either case, and at the root.
pub proof fn law_the_system_is_told_by_its_mount(mount: Seq<char>)
    ensures
        is_system_mount(mount) == {
            ||| mount.len() == 2 && (mount[0] == 'C' || mount[0] == 'c') && mount[1] == ':'
            ||| mount.len() == 1 && mount[0] == '/'
        },
{
    reveal_strlit("C:");
    reveal_strlit("/");
    let (drive, small) = (parse::lowered("C:"@), parse::lowered(mount));
    assert("C:"@.len() == 2 && "C:"@[0] == 'C' && "C:"@[1] == ':');
    assert(drive.len() == 2 && drive[0] == 'c' && drive[1] == ':');
    assert("/"@.len() == 1 && "/"@[0] == '/');
    if mount.len() == 2 {
        assert(small[0] == parse::lower(mount[0]) && small[1] == parse::lower(mount[1]));
        if small[0] == 'c' && small[1] == ':' {
            assert(small =~= drive);
        }
    }
    if mount.len() == 1 && mount[0] == '/' {
        assert(mount =~= "/"@);
    }
}

/// Everything below a mount point lies under it, with either kind of slash, and so does the mount
/// point itself. What merely starts with the same letters does not.
pub proof fn law_places_below_a_mount_lie_under_it(
    mount: Seq<char>,
    between: char,
    rest: Seq<char>,
)
    requires
        mount.len() > 0,
        mount.last() != '/',
        mount.last() != '\\',
    ensures
        lies_under(mount, mount),
        lies_under(mount + seq!['/'], mount + seq!['/']),
        lies_under(mount, mount + seq!['/']),
        lies_under(mount + seq![between] + rest, mount) <==> between == '/' || between == '\\',
        between == '/' || between == '\\' ==> lies_under(
            mount + seq![between] + rest,
            mount + seq!['/'],
        ),
{
    let turned = |s: Seq<char>| parse::replaced(s, '\\', '/');
    let stem = turned(mount);
    let slash = mount + seq!['/'];
    let place = turned(mount + seq![between] + rest);
    parse::law_letters_are_changed_one_by_one(mount, seq!['/'], '\\', '/');
    parse::law_letters_are_changed_one_by_one(mount, seq![between], '\\', '/');
    parse::law_letters_are_changed_one_by_one(mount + seq![between], rest, '\\', '/');
    assert(stem.last() == mount.last());
    assert(without_end_slashes(stem) == stem);
    assert(turned(slash) =~= stem.push('/'));
    assert(stem.push('/').drop_last() =~= stem);
    reveal_with_fuel(without_end_slashes, 2);
    assert(without_end_slashes(turned(slash)) == stem);
    let c = if between == '\\' { '/' } else { between };
    assert(place.len() == mount.len() + 1 + rest.len());
    assert(place[stem.len() as int] == c);
    assert(place.take(stem.len() as int) =~= stem);
    if c == '/' {
        assert(place.take(stem.len() as int + 1) =~= stem.push('/'));
    } else if text::is_prefix(stem.push('/'), place) {
        assert(place.take(stem.len() as int + 1)[stem.len() as int] == '/');
    }
}

/// A disk is found by its path, whatever the case of its letters; of several, the first.
pub proof fn law_disks_are_found_by_their_path(disks: Seq<DriveModel>, path: Seq<char>, i: int)
    requires
        0 <= i <= disks.len(),
        forall|k: int|
            0 <= k < i ==> parse::lowered((#[trigger] disks[k]).path) != parse::lowered(path),
        i < disks.len() ==> parse::lowered(disks[i].path) == parse::lowered(path),
    ensures
        disk_with(disks, path) == if i < disks.len() { Some(i) } else { None },
    decreases disks.len(),
{
    if disks.len() > 0 {
        let front = disks.drop_last();
        assert forall|k: int| 0 <= k < front.len() && k < i implies parse::lowered(
            (#[trigger] front[k]).path,
        ) != parse::lowered(path) by {
            assert(front[k] == disks[k]);
        }
        if i < disks.len() - 1 {
            assert(front[i] == disks[i]);
            law_disks_are_found_by_their_path(front, path, i);
        } else {
            law_disks_are_found_by_their_path(front, path, front.len() as int);
            assert(disks[disks.len() - 1] == disks.last());
        }
    }
}

/// An output that is on none of the volumes of the disk being read, neither by its path nor by what
/// the system says, brings no warning. One on a volume that the system says is the same brings one,
/// whatever its path.
pub proof fn law_the_system_decides_on_volumes(
    source: Seq<char>,
    output: Seq<char>,
    mounts: Seq<Seq<char>>,
    volumes: Seq<Option<bool>>,
)
    requires
        util::names_device(source),
        mounts.len() > 0,
        mounts.len() == volumes.len(),
    ensures
        (forall|i: int|
            0 <= i < mounts.len() ==> !lies_under(output, #[trigger] mounts[i]) && volumes[i] != Some(
                true,
            )) ==> warning_of(source, output, mounts, volumes) is None,
        (exists|i: int| 0 <= i < volumes.len() && #[trigger] volumes[i] == Some(true))
            ==> warning_of(source, output, mounts, volumes) is Some,
        (exists|i: int| 0 <= i < mounts.len() && lies_under(output, #[trigger] mounts[i]))
            ==> warning_of(source, output, mounts, volumes) is Some,
{
    if forall|i: int|
        0 <= i < mounts.len() ==> !lies_under(output, #[trigger] mounts[i]) && volumes[i] != Some(
            true,
        ) {
        lemma_nothing_shared(output, mounts, volumes, 0);
    }
    if exists|i: int| 0 <= i < volumes.len() && #[trigger] volumes[i] == Some(true) {
        let i = choose|i: int| 0 <= i < volumes.len() && #[trigger] volumes[i] == Some(true);
        law_same_disk_brings_a_warning(source, output, mounts, volumes, i);
    }
    if exists|i: int| 0 <= i < mounts.len() && lies_under(output, #[trigger] mounts[i]) {
        let i = choose|i: int| 0 <= i < mounts.len() && lies_under(output, #[trigger] mounts[i]);
        law_same_disk_brings_a_warning(source, output, mounts, volumes, i);
    }
}

proof fn lemma_nothing_shared(
    output: Seq<char>,
    mounts: Seq<Seq<char>>,
    volumes: Seq<Option<bool>>,
    from: int,
)
    requires
        0 <= from <= mounts.len(),
        mounts.len() == volumes.len(),
        forall|i: int|
            0 <= i < mounts.len() ==> !lies_under(output, #[trigger] mounts[i]) && volumes[i] != Some(
                true,
            ),
    ensures
        shared_mount(output, mounts, volumes, from) is None,
    decreases mounts.len() - from,
{
    if from < mounts.len() {
        assert(!lies_under(output, mounts[from]));
        lemma_nothing_shared(output, mounts, volumes, from + 1);
    }
}

} // verus!
