//! Disks as `diskutil` reports them.

use vstd::prelude::*;
use vstd::slice::slice_subrange;

use crate::drives::{self, DriveInfo, DriveModel};
use crate::parse;
use crate::text;

verus! {

broadcast use vstd::slice::group_slice_axioms;

/// The device path that a `<string>` entry gives; `chunk` is what follows the opening tag.
pub open spec fn path_in(chunk: Seq<char>) -> Seq<char> {
    "/dev/"@ + parse::trimmed(parse::pieces(chunk, "</string>"@)[0])
}

/// The list of whole disks in a property list: what stands in the first array behind the key.
pub open spec fn disk_array(plist: Seq<char>) -> Option<Seq<char>> {
    match parse::first_of(plist, "<key>WholeDisks</key>"@) {
        None => None,
        Some(key) => {
            let after = plist.skip(key);
            match (parse::first_of(after, "<array>"@), parse::first_of(after, "</array>"@)) {
                (Some(open), Some(close)) => if close < open + "<array>"@.len() {
                    None
                } else {
                    Some(after.subrange(open + "<array>"@.len(), close))
                },
                _ => None,
            }
        },
    }
}

/// The device paths of the whole disks in a property list, in order.
pub open spec fn disk_paths(plist: Seq<char>) -> Seq<Seq<char>> {
    match disk_array(plist) {
        None => Seq::empty(),
        Some(block) => parse::pieces(block, "<string>"@).skip(1).map_values(
            |chunk: Seq<char>| path_in(chunk),
        ),
    }
}

/// The list of whole disks in the property list.
fn find_disk_array(plist: &[char]) -> (block: Option<Vec<char>>)
    ensures
        match disk_array(plist@) {
            Some(inner) => block is Some && block->0@ == inner,
            None => block is None,
        },
{
    let key = text::letters("<key>WholeDisks</key>");
    let opening = text::letters("<array>");
    let closing = text::letters("</array>");
    match parse::find(plist, &key) {
        None => None,
        Some(at) => {
            let after = slice_subrange(plist, at, plist.len());
            assert(after@ =~= plist@.skip(at as int));
            match (parse::find(after, &opening), parse::find(after, &closing)) {
                (Some(open), Some(close)) => {
                    let from: usize = open + opening.len();
                    if close < from {
                        None
                    } else {
                        Some(parse::copy_of(slice_subrange(after, from, close)))
                    }
                },
                _ => None,
            }
        },
    }
}

fn read_path(chunk: &[char]) -> (path: String)
    ensures
        path@ == path_in(chunk@),
{
    let closing = text::letters("</string>");
    proof {
        reveal_strlit("</string>");
    }
    let parts = parse::split(chunk, &closing);
    assert(parse::contents(parts@)[0] == parts@[0]@);
    let name = text::text_of(parse::trim(&parts[0]));
    let mut path = text::owned("/dev/");
    path.append(name.as_str());
    path
}

/// The device paths of the whole disks in a property list.
pub fn whole_disks(plist: &str) -> (paths: Vec<String>)
    ensures
        text::texts(paths@) == disk_paths(plist@),
{
    let all = text::letters(plist);
    let mut paths: Vec<String> = Vec::new();
    let block = match find_disk_array(&all) {
        None => {
            assert(text::texts(paths@) =~= disk_paths(plist@));
            return paths;
        },
        Some(block) => block,
    };
    let opening = text::letters("<string>");
    proof {
        reveal_strlit("<string>");
    }
    let chunks = parse::split(&block, &opening);
    let ghost wanted = disk_paths(plist@);
    let mut i: usize = 1;
    assert(wanted.len() == chunks@.len() - 1) by {
        assert(parse::contents(chunks@).len() == chunks@.len());
    }
    while i < chunks.len()
        invariant
            1 <= i <= chunks@.len(),
            wanted.len() == chunks@.len() - 1,
            parse::contents(chunks@) == parse::pieces(block@, "<string>"@),
            wanted == parse::pieces(block@, "<string>"@).skip(1).map_values(
                |chunk: Seq<char>| path_in(chunk),
            ),
            text::texts(paths@) =~= wanted.take(i - 1),
        decreases chunks@.len() - i,
    {
        let path = read_path(&chunks[i]);
        assert(parse::contents(chunks@)[i as int] == chunks@[i as int]@);
        assert(wanted[i - 1] == path@);
        let ghost before = paths@;
        paths.push(path);
        assert(text::texts(paths@) =~= text::texts(before).push(path@));
        i = i + 1;
    }
    assert(text::texts(paths@) =~= wanted);
    paths
}

/// What the description of a disk says of it.
pub struct DiskNotes {
    pub model: Seq<char>,
    pub size: nat,
    pub is_removable: bool,
}

/// The piece with this number, or nothing.
pub open spec fn piece_at(s: Seq<char>, separator: Seq<char>, n: int) -> Option<Seq<char>> {
    if n < parse::pieces(s, separator).len() {
        Some(parse::pieces(s, separator)[n])
    } else {
        None
    }
}

/// What is known of a disk after another line of its description. Whether its medium can be taken
/// out stands behind the colon of the line that tells it.
pub open spec fn noted(notes: DiskNotes, line: Seq<char>) -> DiskNotes {
    let line = parse::trimmed(line);
    if text::is_prefix("Device / Media Name:"@, line) {
        DiskNotes {
            model: match piece_at(line, ":"@, 1) {
                Some(model) => parse::trimmed(model),
                None => Seq::empty(),
            },
            ..notes
        }
    } else if text::is_prefix("Disk Size:"@, line) {
        match piece_at(line, "("@, 1) {
            Some(bytes) => DiskNotes {
                size: drives::reported_size(parse::leading_digits(bytes)),
                ..notes
            },
            None => notes,
        }
    } else if text::is_prefix("Removable Media:"@, line) {
        DiskNotes {
            is_removable: match piece_at(line, ":"@, 1) {
                Some(answer) => text::contains_text(answer, "Removable"@),
                None => false,
            },
            ..notes
        }
    } else if text::is_prefix("Protocol:"@, line) && text::contains_text(line, "USB"@) {
        DiskNotes { is_removable: true, ..notes }
    } else {
        notes
    }
}

/// What the lines of a description say of a disk.
pub open spec fn notes_of(lines: Seq<Seq<char>>) -> DiskNotes
    decreases lines.len(),
{
    if lines.len() == 0 {
        DiskNotes { model: "Disco desconocido"@, size: 0, is_removable: false }
    } else {
        noted(notes_of(lines.drop_last()), lines.last())
    }
}

/// The disk with this path and description.
pub open spec fn disk_of(path: Seq<char>, info: Seq<char>) -> DriveModel {
    let notes = notes_of(parse::pieces(info, "\n"@));
    DriveModel {
        path: path,
        display_name: drives::shown_name(path, notes.model, notes.size),
        letter: None,
        all_mounts: Seq::empty(),
        size_bytes: notes.size,
        is_removable: notes.is_removable,
    }
}

fn second_piece(s: &[char], separator: &str) -> (piece: Option<Vec<char>>)
    requires
        separator@.len() > 0,
    ensures
        match piece_at(s@, separator@, 1) {
            Some(wanted) => piece is Some && piece->0@ == wanted,
            None => piece is None,
        },
{
    let between = text::letters(separator);
    let parts = parse::split(s, &between);
    assert(parse::contents(parts@).len() == parts@.len());
    if parts.len() > 1 {
        assert(parse::contents(parts@)[1] == parts@[1]@);
        Some(parse::copy_of(&parts[1]))
    } else {
        None
    }
}

/// The disk with this path and description.
pub fn get_macos_disk_info(disk_path: &str, info: &str) -> (disk: DriveInfo)
    ensures
        disk.model() == disk_of(disk_path@, info@),
{
    proof {
        reveal_strlit("\n");
        reveal_strlit(":");
        reveal_strlit("(");
    }
    let all = text::letters(info);
    let newline = text::letters("\n");
    let lines = parse::split(&all, &newline);
    let ghost wanted = parse::contents(lines@);
    let mut model = text::owned("Disco desconocido");
    let mut size_bytes: u64 = 0;
    let mut is_removable = false;
    let mut i: usize = 0;
    while i < lines.len()
        invariant
            i <= lines@.len(),
            wanted == parse::contents(lines@),
            ":"@.len() == 1,
            "("@.len() == 1,
            notes_of(wanted.take(i as int)) == (DiskNotes {
                model: model@,
                size: size_bytes as nat,
                is_removable,
            }),
        decreases lines@.len() - i,
    {
        proof {
            assert(wanted.take(i as int + 1).drop_last() =~= wanted.take(i as int));
            assert(wanted.take(i as int + 1).last() == lines@[i as int]@);
        }
        let line = parse::trim(&lines[i]);
        if parse::begins(line, "Device / Media Name:") {
            model = match second_piece(line, ":") {
                Some(name) => text::text_of(parse::trim(&name)),
                None => String::new(),
            };
        } else if parse::begins(line, "Disk Size:") {
            if let Some(bytes) = second_piece(line, "(") {
                size_bytes = drives::read_size(parse::digits_at_start(&bytes));
            }
        } else if parse::begins(line, "Removable Media:") {
            is_removable = match second_piece(line, ":") {
                Some(answer) => parse::holds(&answer, "Removable"),
                None => false,
            };
        } else if parse::begins(line, "Protocol:") {
            if parse::holds(line, "USB") {
                is_removable = true;
            }
        }
        i = i + 1;
    }
    assert(wanted.take(wanted.len() as int) =~= wanted);
    let display_name = drives::show_name(disk_path, model.as_str(), size_bytes);
    let all_mounts: Vec<String> = Vec::new();
    let disk = DriveInfo {
        path: text::owned(disk_path),
        display_name,
        letter: None,
        all_mounts,
        size_bytes,
        is_removable,
    };
    assert(disk.model().all_mounts =~= Seq::<Seq<char>>::empty());
    disk
}

/// The disks that could be described, in order.
pub open spec fn disks_of(disks: Seq<(String, Option<String>)>) -> Seq<DriveModel>
    decreases disks.len(),
{
    if disks.len() == 0 {
        Seq::empty()
    } else {
        let before = disks_of(disks.drop_last());
        match disks.last().1 {
            Some(info) => before.push(disk_of(disks.last().0@, info@)),
            None => before,
        }
    }
}

/// The disks that could be described.
pub fn list_drives_macos(disks: &Vec<(String, Option<String>)>) -> (list: Vec<DriveInfo>)
    ensures
        drives::models(list@) == disks_of(disks@),
{
    let mut list: Vec<DriveInfo> = Vec::new();
    let mut i: usize = 0;
    assert(drives::models(list@) =~= disks_of(disks@.take(0)));
    while i < disks.len()
        invariant
            i <= disks@.len(),
            drives::models(list@) == disks_of(disks@.take(i as int)),
        decreases disks@.len() - i,
    {
        proof {
            assert(disks@.take(i as int + 1).drop_last() =~= disks@.take(i as int));
            assert(disks@.take(i as int + 1).last() == disks@[i as int]);
        }
        if let Some(info) = &disks[i].1 {
            let ghost before = list@;
            list.push(get_macos_disk_info(disks[i].0.as_str(), info.as_str()));
            assert(drives::models(list@) =~= drives::models(before).push(
                disk_of(disks@[i as int].0@, info@),
            ));
        }
        i = i + 1;
    }
    assert(disks@.take(disks@.len() as int) =~= disks@);
    list
}

/// The size of a disk is the number behind the first bracket of the line that tells it.
pub proof fn law_sizes_are_read_behind_the_bracket(
    notes: DiskNotes,
    before: Seq<char>,
    size: nat,
    after: Seq<char>,
)
    requires
        !before.contains('('),
        !after.contains('('),
        after.len() > 0,
        !('0' <= after[0] <= '9'),
        !parse::white_space(after.last()),
        size <= u64::MAX,
    ensures
        noted(
            notes,
            seq!['D', 'i', 's', 'k', ' ', 'S', 'i', 'z', 'e', ':'] + before + seq!['('] + (
            text::decimal(size) + after),
        ) == (DiskNotes { size: size, ..notes }),
{
    reveal_strlit("Disk Size:");
    reveal_strlit("Device / Media Name:");
    reveal_strlit("(");
    let head = "Disk Size:"@;
    assert(head =~= seq!['D', 'i', 's', 'k', ' ', 'S', 'i', 'z', 'e', ':']);
    assert("("@ =~= seq!['(']);
    let digits = text::decimal(size);
    let first = head + before;
    let line = first + seq!['('] + (digits + after);
    parse::law_written_numbers_are_read_back(size, u64::MAX as nat);
    assert(line[0] == 'D' && line.last() == after.last());
    parse::law_texts_without_blanks_around_stay(line);
    lemma_starts_with(head, before + seq!['('] + (digits + after), line);
    lemma_other_start("Device / Media Name:"@, line, 1);
    assert(!first.contains('(')) by {
        if first.contains('(') {
            let k = choose|k: int| 0 <= k < first.len() && first[k] == '(';
            if k >= head.len() {
                assert(before[k - head.len()] == '(');
            }
        }
    }
    assert(!(digits + after).contains('(')) by {
        if (digits + after).contains('(') {
            let k = choose|k: int| 0 <= k < (digits + after).len() && (digits + after)[k] == '(';
            if k < digits.len() {
                assert(parse::is_digit(digits[k]));
            } else {
                assert(after[k - digits.len()] == '(');
            }
        }
    }
    parse::law_the_first_piece_ends_at_the_separator(first, '(', digits + after);
    parse::law_the_first_piece_ends_at_the_separator(digits + after, '(', Seq::empty());
    parse::law_leading_digits_end_at_the_first_other(digits, after);
    assert(parse::pieces(line, "("@) =~= seq![first, digits + after]);
}

/// The model of a disk is what stands behind the colon of the line that tells it, without the blanks
/// around it. Whether its medium can be taken out stands behind the colon of the line for that. A disk
/// on USB can be taken out whatever that line says.
pub proof fn law_notes_are_read_behind_the_colon(notes: DiskNotes, rest: Seq<char>)
    requires
        !rest.contains(':'),
        rest.len() > 0,
        !parse::white_space(rest.last()),
    ensures
        noted(notes, "Device / Media Name:"@ + rest) == (DiskNotes {
            model: parse::trimmed(rest),
            ..notes
        }),
        noted(notes, "Removable Media:"@ + rest) == (DiskNotes {
            is_removable: text::contains_text(rest, "Removable"@),
            ..notes
        }),
        noted(notes, "Protocol:"@ + rest) == if text::contains_text(rest, "USB"@) {
            DiskNotes { is_removable: true, ..notes }
        } else {
            notes
        },
{
    reveal_strlit("Device / Media Name:");
    reveal_strlit("Disk Size:");
    reveal_strlit("Removable Media:");
    reveal_strlit("Protocol:");
    let (name, size, media, protocol) = (
        "Device / Media Name:"@,
        "Disk Size:"@,
        "Removable Media:"@,
        "Protocol:"@,
    );
    assert(name.len() == 20 && size.len() == 10 && media.len() == 16 && protocol.len() == 9);
    assert(name[0] == 'D' && size[0] == 'D' && media[0] == 'R' && protocol[0] == 'P');
    lemma_behind_the_colon(name, rest);
    lemma_behind_the_colon(media, rest);
    lemma_starts_with(name, rest, name + rest);
    lemma_starts_with(media, rest, media + rest);
    lemma_starts_with(protocol, rest, protocol + rest);
    lemma_other_start(name, media + rest, 0);
    lemma_other_start(size, media + rest, 0);
    lemma_other_start(name, protocol + rest, 0);
    lemma_other_start(size, protocol + rest, 0);
    lemma_other_start(media, protocol + rest, 0);
    assert((name + rest).last() == rest.last() && (media + rest).last() == rest.last()
        && (protocol + rest).last() == rest.last());
    parse::law_texts_without_blanks_around_stay(name + rest);
    parse::law_texts_without_blanks_around_stay(media + rest);
    parse::law_texts_without_blanks_around_stay(protocol + rest);
    lemma_usb_behind(protocol, rest);
}

proof fn lemma_starts_with(head: Seq<char>, rest: Seq<char>, line: Seq<char>)
    requires
        line =~= head + rest,
    ensures
        text::is_prefix(head, line),
{
    assert(line.take(head.len() as int) =~= head);
}

proof fn lemma_other_start(head: Seq<char>, line: Seq<char>, k: int)
    requires
        0 <= k < head.len(),
        k < line.len(),
        line[k] != head[k],
    ensures
        !text::is_prefix(head, line),
{
    text::law_starts_are_told_letter_by_letter(head, line);
}

proof fn lemma_behind_the_colon(head: Seq<char>, rest: Seq<char>)
    requires
        head == "Device / Media Name:"@ || head == "Removable Media:"@,
        !rest.contains(':'),
    ensures
        piece_at(head + rest, ":"@, 1) == Some(rest),
{
    reveal_strlit("Device / Media Name:");
    reveal_strlit("Removable Media:");
    reveal_strlit(":");
    assert(":"@ =~= seq![':']);
    let label = head.drop_last();
    assert(head.last() == ':');
    assert(head + rest =~= label + seq![':'] + rest);
    assert(!label.contains(':')) by {
        if head == "Device / Media Name:"@ {
            assert(label =~= seq![
                'D',
                'e',
                'v',
                'i',
                'c',
                'e',
                ' ',
                '/',
                ' ',
                'M',
                'e',
                'd',
                'i',
                'a',
                ' ',
                'N',
                'a',
                'm',
                'e',
            ]);
        } else {
            assert(label =~= seq![
                'R',
                'e',
                'm',
                'o',
                'v',
                'a',
                'b',
                'l',
                'e',
                ' ',
                'M',
                'e',
                'd',
                'i',
                'a',
            ]);
        }
    }
    parse::law_the_first_piece_ends_at_the_separator(label, ':', rest);
    parse::law_the_first_piece_ends_at_the_separator(rest, ':', Seq::empty());
    assert(parse::pieces(head + rest, ":"@) =~= seq![label, rest]);
}

/// The word stands behind the label or nowhere: the label ends in a colon, and holds no part of it.
proof fn lemma_usb_behind(head: Seq<char>, rest: Seq<char>)
    requires
        head == "Protocol:"@,
    ensures
        text::contains_text(head + rest, "USB"@) == text::contains_text(rest, "USB"@),
{
    reveal_strlit("Protocol:");
    reveal_strlit("USB");
    let usb = "USB"@;
    let whole = head + rest;
    assert(usb.len() == 3 && usb[0] == 'U' && head.len() == 9);
    if text::contains_text(rest, usb) {
        let at = choose|at: int| #[trigger] text::text_at(rest, at, usb);
        assert(whole.subrange(at + 9, at + 12) =~= rest.subrange(at, at + 3));
        assert(text::text_at(whole, at + 9, usb));
    }
    if text::contains_text(whole, usb) {
        let at = choose|at: int| #[trigger] text::text_at(whole, at, usb);
        assert(whole.subrange(at, at + 3)[0] == 'U');
        if at < 9 {
            assert(whole[at] == head[at]);
            assert(head =~= seq!['P', 'r', 'o', 't', 'o', 'c', 'o', 'l', ':']);
        } else {
            assert(rest.subrange(at - 9, at - 6) =~= whole.subrange(at, at + 3));
            assert(text::text_at(rest, at - 9, usb));
        }
    }
}

} // verus!
