//! Disks as the tools of Windows report them.

use vstd::prelude::*;
use vstd::slice::slice_subrange;

use crate::drives::{self, DriveInfo, DriveModel};
use crate::parse;
use crate::text;

verus! {

broadcast use vstd::slice::group_slice_axioms;

/// The shape of what `ConvertTo-Json` printed.
#[derive(Debug, Clone, Copy, PartialEq, Eq, Structural)]
pub enum JsonShape {
    /// Nothing: there are no rows.
    Empty,
    /// A list of rows.
    Rows,
    /// One row by itself: that is how a single one is printed.
    SingleRow,
}

/// The shape of what was printed.
pub open spec fn shape_of(printed: Seq<char>) -> JsonShape {
    let inner = parse::trimmed(printed);
    if inner.len() == 0 {
        JsonShape::Empty
    } else if inner[0] == '[' {
        JsonShape::Rows
    } else {
        JsonShape::SingleRow
    }
}

/// The shape of what was printed.
pub fn json_shape(printed: &str) -> (shape: JsonShape)
    ensures
        shape == shape_of(printed@),
{
    let all = text::letters(printed);
    let inner = parse::trim(&all);
    if inner.len() == 0 {
        JsonShape::Empty
    } else if inner[0] == '[' {
        JsonShape::Rows
    } else {
        JsonShape::SingleRow
    }
}

/// A disk in a report of PowerShell.
pub struct WmiDisk {
    pub device_id: Option<String>,
    pub model: Option<String>,
    pub size: Option<String>,
    pub media_type: Option<String>,
}

/// A partition in a report of `Get-Partition`.
pub struct PartitionMapping {
    pub disk_number: Option<u32>,
    pub drive_letter: Option<String>,
}

/// A drive letter and its partition, in a report of `Win32_LogicalDiskToPartition`.
pub struct WmiPartitionMapping {
    pub antecedent: Option<String>,
    pub dependent: Option<String>,
}

/// Pairs of disk number and drive letter, as sequences of characters.
pub open spec fn pairs(list: Seq<(String, String)>) -> Seq<(Seq<char>, Seq<char>)> {
    list.map_values(|one: (String, String)| (one.0@, one.1@))
}

/// The drive letter of a partition, where it has one: the letter, and a colon behind it.
pub open spec fn letter_of(row: PartitionMapping) -> Option<(Seq<char>, Seq<char>)> {
    match (row.disk_number, row.drive_letter) {
        (Some(number), Some(letter)) => if parse::trimmed(letter@).len() > 0 {
            Some((text::decimal(number as nat), parse::trimmed(letter@).push(':')))
        } else {
            None
        },
        _ => None,
    }
}

/// The drive letters of the partitions, in order.
pub open spec fn partition_letters(rows: Seq<PartitionMapping>) -> Seq<(Seq<char>, Seq<char>)>
    decreases rows.len(),
{
    if rows.len() == 0 {
        Seq::empty()
    } else {
        let before = partition_letters(rows.drop_last());
        match letter_of(rows.last()) {
            Some(pair) => before.push(pair),
            None => before,
        }
    }
}

/// The drive letters of the partitions.
pub fn get_drive_letter_map_get_partition(rows: &[PartitionMapping]) -> (letters: Vec<
    (String, String),
>)
    ensures
        pairs(letters@) == partition_letters(rows@),
{
    let mut letters: Vec<(String, String)> = Vec::new();
    let mut i: usize = 0;
    assert(pairs(letters@) =~= partition_letters(rows@.take(0)));
    while i < rows.len()
        invariant
            i <= rows@.len(),
            pairs(letters@) == partition_letters(rows@.take(i as int)),
        decreases rows@.len() - i,
    {
        proof {
            assert(rows@.take(i as int + 1).drop_last() =~= rows@.take(i as int));
            assert(rows@.take(i as int + 1).last() == rows@[i as int]);
        }
        match (rows[i].disk_number, &rows[i].drive_letter) {
            (Some(number), Some(letter)) => {
                let all = text::letters(letter.as_str());
                let inner = parse::trim(&all);
                if inner.len() > 0 {
                    let mut disk = String::new();
                    text::push_decimal(&mut disk, number as u64);
                    let mut shown = text::text_of(inner);
                    shown.push(':');
                    assert(disk@ =~= text::decimal(number as nat));
                    let ghost before = letters@;
                    letters.push((disk, shown));
                    assert(pairs(letters@) =~= pairs(before).push((disk@, shown@)));
                }
            },
            _ => {},
        }
        i = i + 1;
    }
    assert(rows@.take(rows@.len() as int) =~= rows@);
    letters
}

/// The disk number in the path of a partition: the digits behind `Disk #`.
pub open spec fn disk_number_in(antecedent: Seq<char>) -> Option<Seq<char>> {
    match parse::first_of(antecedent, "Disk #"@) {
        Some(at) => {
            let digits = parse::leading_digits(antecedent.skip(at + 6));
            if digits.len() > 0 {
                Some(digits)
            } else {
                None
            }
        },
        None => None,
    }
}

/// The disk number in the path of a partition, such as `DeviceID="Disk #0, Partition #0"`.
pub fn extract_disk_number(antecedent: &str) -> (number: Option<String>)
    ensures
        drives::optional(number) == disk_number_in(antecedent@),
{
    proof {
        reveal_strlit("Disk #");
    }
    let all = text::letters(antecedent);
    let mark = text::letters("Disk #");
    let count: usize = all.len();
    assert(mark@.len() == 6);
    match parse::find(&all, &mark) {
        Some(at) => {
            let rest = slice_subrange(&all, at + 6, count);
            assert(rest@ =~= antecedent@.skip(at + 6));
            let digits = parse::digits_at_start(rest);
            if digits.len() > 0 {
                Some(text::text_of(digits))
            } else {
                None
            }
        },
        None => None,
    }
}

/// What stands before the first quotation mark.
pub open spec fn up_to_quote(s: Seq<char>) -> Seq<char> {
    parse::pieces(s, "\""@)[0]
}

/// The drive letter in the path of a logical disk: what is quoted behind `DeviceID=`.
pub open spec fn drive_letter_in(dependent: Seq<char>) -> Option<Seq<char>> {
    match parse::first_of(dependent, "DeviceID=\""@) {
        Some(at) => {
            let letter = up_to_quote(dependent.skip(at + 10));
            if letter.len() > 0 {
                Some(letter)
            } else {
                None
            }
        },
        None => None,
    }
}

/// The drive letter in the path of a logical disk, such as `DeviceID="D:"`.
pub fn extract_drive_letter(dependent: &str) -> (letter: Option<String>)
    ensures
        drives::optional(letter) == drive_letter_in(dependent@),
{
    proof {
        reveal_strlit("DeviceID=\"");
        reveal_strlit("\"");
    }
    let all = text::letters(dependent);
    let mark = text::letters("DeviceID=\"");
    let quote = text::letters("\"");
    let count: usize = all.len();
    assert(mark@.len() == 10);
    match parse::find(&all, &mark) {
        Some(at) => {
            let rest = slice_subrange(&all, at + 10, count);
            assert(rest@ =~= dependent@.skip(at + 10));
            let parts = parse::split(rest, &quote);
            assert(parse::contents(parts@)[0] == parts@[0]@);
            if parts[0].len() > 0 {
                Some(text::text_of(&parts[0]))
            } else {
                None
            }
        },
        None => None,
    }
}

/// The drive letters that associations give, in order. Rows without a number or a letter give
/// none.
pub open spec fn association_letters(rows: Seq<WmiPartitionMapping>) -> Seq<
    (Seq<char>, Seq<char>),
>
    decreases rows.len(),
{
    if rows.len() == 0 {
        Seq::empty()
    } else {
        let before = association_letters(rows.drop_last());
        match association_letter(rows.last()) {
            Some(pair) => before.push(pair),
            None => before,
        }
    }
}

/// The drive letter that an association gives.
pub open spec fn association_letter(row: WmiPartitionMapping) -> Option<(Seq<char>, Seq<char>)> {
    match (row.antecedent, row.dependent) {
        (Some(antecedent), Some(dependent)) => match (
            disk_number_in(antecedent@),
            drive_letter_in(dependent@),
        ) {
            (Some(number), Some(letter)) => Some((number, letter)),
            _ => None,
        },
        _ => None,
    }
}

/// The drive letters that the associations give.
pub fn get_drive_letter_map_wmi(rows: &[WmiPartitionMapping]) -> (letters: Vec<(String, String)>)
    ensures
        pairs(letters@) == association_letters(rows@),
{
    let mut letters: Vec<(String, String)> = Vec::new();
    let mut i: usize = 0;
    assert(pairs(letters@) =~= association_letters(rows@.take(0)));
    while i < rows.len()
        invariant
            i <= rows@.len(),
            pairs(letters@) == association_letters(rows@.take(i as int)),
        decreases rows@.len() - i,
    {
        proof {
            assert(rows@.take(i as int + 1).drop_last() =~= rows@.take(i as int));
            assert(rows@.take(i as int + 1).last() == rows@[i as int]);
        }
        match (&rows[i].antecedent, &rows[i].dependent) {
            (Some(antecedent), Some(dependent)) => {
                let number = extract_disk_number(antecedent.as_str());
                let letter = extract_drive_letter(dependent.as_str());
                match (number, letter) {
                    (Some(number), Some(letter)) => {
                        let ghost before = letters@;
                        let ghost pair = (number@, letter@);
                        letters.push((number, letter));
                        assert(pairs(letters@) =~= pairs(before).push(pair));
                    },
                    _ => {},
                }
            },
            _ => {},
        }
        i = i + 1;
    }
    assert(rows@.take(rows@.len() as int) =~= rows@);
    letters
}

/// The medium can be taken out, by what the report calls it.
pub open spec fn names_removable(media_type: Seq<char>) -> bool {
    let kind = parse::lowered(media_type);
    text::contains_text(kind, "removable"@) || text::contains_text(kind, "external"@)
}

/// Whether the medium can be taken out, by what the report calls it.
pub fn is_removable_media(media_type: &[char]) -> (yes: bool)
    ensures
        yes == names_removable(media_type@),
{
    let kind = parse::to_lowered(media_type);
    parse::holds(&kind, "removable") || parse::holds(&kind, "external")
}

/// The letters of the disk with this number, in order.
pub open spec fn letters_of(letters: Seq<(String, String)>, number: Seq<char>) -> Seq<Seq<char>>
    decreases letters.len(),
{
    if letters.len() == 0 {
        Seq::empty()
    } else {
        let before = letters_of(letters.drop_last(), number);
        if letters.last().0@ == number {
            before.push(letters.last().1@)
        } else {
            before
        }
    }
}

fn collect_letters(letters: &Vec<(String, String)>, number: &[char]) -> (mounts: Vec<String>)
    ensures
        text::texts(mounts@) == letters_of(letters@, number@),
{
    let mut mounts: Vec<String> = Vec::new();
    let mut i: usize = 0;
    assert(text::texts(mounts@) =~= letters_of(letters@.take(0), number@));
    while i < letters.len()
        invariant
            i <= letters@.len(),
            text::texts(mounts@) == letters_of(letters@.take(i as int), number@),
        decreases letters@.len() - i,
    {
        proof {
            assert(letters@.take(i as int + 1).drop_last() =~= letters@.take(i as int));
            assert(letters@.take(i as int + 1).last() == letters@[i as int]);
        }
        if parse::is_text(number, letters[i].0.as_str()) {
            let ghost before = mounts@;
            mounts.push(letters[i].1.clone());
            assert(text::texts(mounts@) =~= text::texts(before).push(letters@[i as int].1@));
        }
        i = i + 1;
    }
    assert(letters@.take(letters@.len() as int) =~= letters@);
    mounts
}

/// A text of a report, or what stands for it where it is missing.
pub open spec fn or_else(value: Option<String>, otherwise: Seq<char>) -> Seq<char> {
    match value {
        Some(value) => value@,
        None => otherwise,
    }
}

/// A disk of a report of PowerShell. Its letters are those of the number that its path ends in.
pub open spec fn disk_of(disk: WmiDisk, letters: Seq<(String, String)>) -> DriveModel {
    let path = disk.device_id->0@;
    let model = or_else(disk.model, "Disco desconocido"@);
    let size = drives::reported_size(or_else(disk.size, ""@));
    let mounts = letters_of(letters, parse::trailing_digits(path));
    DriveModel {
        path: path,
        display_name: drives::shown_name(
            if mounts.len() > 0 {
                mounts[0]
            } else {
                path
            },
            model,
            size,
        ),
        letter: drives::first_text(mounts),
        all_mounts: mounts,
        size_bytes: size,
        is_removable: names_removable(or_else(disk.media_type, ""@)),
    }
}

/// The disks of a report of PowerShell that have a path, in order.
pub open spec fn disks_of(disks: Seq<WmiDisk>, letters: Seq<(String, String)>) -> Seq<DriveModel>
    decreases disks.len(),
{
    if disks.len() == 0 {
        Seq::empty()
    } else {
        let before = disks_of(disks.drop_last(), letters);
        if disks.last().device_id is Some {
            before.push(disk_of(disks.last(), letters))
        } else {
            before
        }
    }
}

fn text_or(value: &Option<String>, otherwise: &str) -> (chosen: String)
    ensures
        chosen@ == or_else(*value, otherwise@),
{
    match value {
        Some(value) => value.clone(),
        None => text::owned(otherwise),
    }
}

fn read_disk(disk: &WmiDisk, path: &String, letters: &Vec<(String, String)>) -> (read: DriveInfo)
    requires
        disk.device_id == Some(*path),
    ensures
        read.model() == disk_of(*disk, letters@),
{
    let model = text_or(&disk.model, "Disco desconocido");
    let size = text::letters(text_or(&disk.size, "").as_str());
    let size_bytes: u64 = drives::read_size(&size);
    let media_type = text::letters(text_or(&disk.media_type, "").as_str());
    let is_removable = is_removable_media(&media_type);
    let device = text::letters(path.as_str());
    let all_mounts = collect_letters(letters, parse::digits_at_end(&device));
    let letter = drives::take_first(&all_mounts);
    let display_name = match &letter {
        Some(letter) => drives::show_name(letter.as_str(), model.as_str(), size_bytes),
        None => drives::show_name(path.as_str(), model.as_str(), size_bytes),
    };
    DriveInfo { path: path.clone(), display_name, letter, all_mounts, size_bytes, is_removable }
}

/// The disks of a report of PowerShell, with all their drive letters.
pub fn list_drives_powershell(disks: &Vec<WmiDisk>, letters: &Vec<(String, String)>) -> (list: Vec<
    DriveInfo,
>)
    ensures
        drives::models(list@) == disks_of(disks@, letters@),
{
    let mut list: Vec<DriveInfo> = Vec::new();
    let mut i: usize = 0;
    assert(drives::models(list@) =~= disks_of(disks@.take(0), letters@));
    while i < disks.len()
        invariant
            i <= disks@.len(),
            drives::models(list@) == disks_of(disks@.take(i as int), letters@),
        decreases disks@.len() - i,
    {
        proof {
            assert(disks@.take(i as int + 1).drop_last() =~= disks@.take(i as int));
            assert(disks@.take(i as int + 1).last() == disks@[i as int]);
        }
        if let Some(path) = &disks[i].device_id {
            let ghost before = list@;
            list.push(read_disk(&disks[i], path, letters));
            assert(drives::models(list@) =~= drives::models(before).push(
                disk_of(disks@[i as int], letters@),
            ));
        }
        i = i + 1;
    }
    assert(disks@.take(disks@.len() as int) =~= disks@);
    list
}

/// The disk in a row of a table: node, path, kind of medium, model and size, with commas between
/// them. A model may hold commas itself, so the size is what stands behind the last one.
pub open spec fn row_disk(row: Seq<char>) -> Option<DriveModel> {
    let fields = parse::pieces(row, ","@);
    if fields.len() < 4 {
        None
    } else {
        let path = parse::trimmed(fields[1]);
        let size = drives::reported_size(parse::trimmed(fields.last()));
        let model = parse::trimmed(
            text::joined(fields.subrange(3, fields.len() - 1), ","@),
        );
        Some(
            DriveModel {
                path: path,
                display_name: drives::shown_name(
                    path,
                    if model.len() == 0 {
                        "Disco desconocido"@
                    } else {
                        model
                    },
                    size,
                ),
                letter: None,
                all_mounts: Seq::empty(),
                size_bytes: size,
                is_removable: names_removable(parse::trimmed(fields[2])),
            },
        )
    }
}

/// The disks in the first lines of a table. The first line of all is left out, and so are lines
/// that hold nothing or too few fields.
pub open spec fn rows_disks(lines: Seq<Seq<char>>) -> Seq<DriveModel>
    decreases lines.len(),
{
    if lines.len() <= 1 {
        Seq::empty()
    } else {
        let before = rows_disks(lines.drop_last());
        let row = parse::trimmed(lines.last());
        if row.len() == 0 {
            before
        } else {
            match row_disk(row) {
                Some(disk) => before.push(disk),
                None => before,
            }
        }
    }
}

/// The disks in a table.
pub open spec fn table_disks(table: Seq<char>) -> Seq<DriveModel> {
    rows_disks(parse::pieces(table, "\n"@))
}

fn join_fields(fields: &Vec<Vec<char>>, from: usize, to: usize) -> (joined: String)
    requires
        from <= to <= fields@.len(),
    ensures
        joined@ == text::joined(
            parse::contents(fields@).subrange(from as int, to as int),
            ","@,
        ),
{
    let mut list: Vec<String> = Vec::new();
    let mut i: usize = from;
    let ghost wanted = parse::contents(fields@).subrange(from as int, to as int);
    while i < to
        invariant
            from <= i <= to <= fields@.len(),
            wanted == parse::contents(fields@).subrange(from as int, to as int),
            text::texts(list@) =~= wanted.take(i - from),
        decreases to - i,
    {
        let ghost before = list@;
        list.push(text::text_of(&fields[i]));
        assert(text::texts(list@) =~= text::texts(before).push(fields@[i as int]@));
        i = i + 1;
    }
    assert(text::texts(list@) =~= wanted);
    let mut joined = String::new();
    text::push_joined(&mut joined, &list, ",");
    assert(joined@ =~= text::joined(wanted, ","@));
    joined
}

fn read_row(row: &[char]) -> (disk: Option<DriveInfo>)
    ensures
        match row_disk(row@) {
            Some(model) => disk is Some && disk->0.model() == model,
            None => disk is None,
        },
{
    proof {
        reveal_strlit(",");
    }
    let comma = text::letters(",");
    let fields = parse::split(row, &comma);
    let ghost wanted = parse::contents(fields@);
    assert(wanted.len() == fields@.len());
    if fields.len() < 4 {
        return None;
    }
    let count: usize = fields.len();
    assert(wanted[1] == fields@[1]@ && wanted[2] == fields@[2]@);
    assert(wanted.last() == fields@[count - 1]@);
    let path = text::text_of(parse::trim(&fields[1]));
    let is_removable = is_removable_media(parse::trim(&fields[2]));
    let size_bytes: u64 = drives::read_size(parse::trim(&fields[count - 1]));
    let joined = text::letters(join_fields(&fields, 3, count - 1).as_str());
    let model = parse::trim(&joined);
    let named = if model.len() == 0 {
        text::owned("Disco desconocido")
    } else {
        text::text_of(model)
    };
    let display_name = drives::show_name(path.as_str(), named.as_str(), size_bytes);
    let all_mounts: Vec<String> = Vec::new();
    let disk = DriveInfo {
        path,
        display_name,
        letter: None,
        all_mounts,
        size_bytes,
        is_removable,
    };
    assert(disk.model().all_mounts =~= Seq::<Seq<char>>::empty());
    Some(disk)
}

/// The disks in a table of `wmic`.
pub fn list_drives_wmic(table: &str) -> (list: Vec<DriveInfo>)
    ensures
        drives::models(list@) == table_disks(table@),
{
    proof {
        reveal_strlit("\n");
    }
    let all = text::letters(table);
    let newline = text::letters("\n");
    let lines = parse::split(&all, &newline);
    let ghost wanted = parse::contents(lines@);
    let mut list: Vec<DriveInfo> = Vec::new();
    let mut i: usize = 1;
    assert(drives::models(list@) =~= rows_disks(wanted.take(1)));
    while i < lines.len()
        invariant
            1 <= i <= lines@.len(),
            wanted == parse::contents(lines@),
            drives::models(list@) == rows_disks(wanted.take(i as int)),
        decreases lines@.len() - i,
    {
        proof {
            assert(wanted.take(i as int + 1).drop_last() =~= wanted.take(i as int));
            assert(wanted.take(i as int + 1).last() == lines@[i as int]@);
        }
        let row = parse::trim(&lines[i]);
        if row.len() > 0 {
            if let Some(disk) = read_row(row) {
                let ghost before = list@;
                let ghost model = disk.model();
                list.push(disk);
                assert(drives::models(list@) =~= drives::models(before).push(model));
            }
        }
        i = i + 1;
    }
    assert(wanted.take(wanted.len() as int) =~= wanted);
    list
}

/// A medium can be taken out where its description holds the word removable or external, in whatever
/// case and wherever it stands.
pub proof fn law_removable_media_are_told_by_a_word(
    before: Seq<char>,
    word: Seq<char>,
    after: Seq<char>,
)
    requires
        parse::lowered(word) == seq!['r', 'e', 'm', 'o', 'v', 'a', 'b', 'l', 'e']
            || parse::lowered(word) == seq!['e', 'x', 't', 'e', 'r', 'n', 'a', 'l'],
    ensures
        names_removable(before + word + after),
{
    reveal_strlit("removable");
    reveal_strlit("external");
    assert("removable"@ =~= seq!['r', 'e', 'm', 'o', 'v', 'a', 'b', 'l', 'e']);
    assert("external"@ =~= seq!['e', 'x', 't', 'e', 'r', 'n', 'a', 'l']);
    parse::law_letters_are_changed_one_by_one(before, word, '/', '/');
    parse::law_letters_are_changed_one_by_one(before + word, after, '/', '/');
    text::law_parts_are_contained(
        parse::lowered(before),
        parse::lowered(word),
        parse::lowered(after),
    );
}

/// The number of a disk is read behind its mark, up to the first character that is no digit.
pub proof fn law_disk_numbers_are_read(before: Seq<char>, number: nat, after: Seq<char>)
    requires
        !before.contains('#'),
        after.len() > 0 ==> !('0' <= after[0] <= '9'),
    ensures
        disk_number_in(
            before + seq!['D', 'i', 's', 'k', ' ', '#'] + (text::decimal(number) + after),
        ) == Some(text::decimal(number)),
{
    reveal_strlit("Disk #");
    let mark = "Disk #"@;
    assert(mark =~= seq!['D', 'i', 's', 'k', ' ', '#']);
    let digits = text::decimal(number);
    parse::law_written_numbers_are_read_back(number, number);
    parse::law_leading_digits_end_at_the_first_other(digits, after);
    parse::law_marks_are_found_where_they_stand(before, mark, digits + after);
}

/// The letter of a drive is what stands between the quotes.
pub proof fn law_drive_letters_are_read(before: Seq<char>, letter: Seq<char>, after: Seq<char>)
    requires
        !before.contains('"'),
        !letter.contains('"'),
        letter.len() > 0,
    ensures
        drive_letter_in(
            before + seq!['D', 'e', 'v', 'i', 'c', 'e', 'I', 'D', '=', '"'] + (letter + seq!['"']
                + after),
        ) == Some(letter),
{
    reveal_strlit("DeviceID=\"");
    reveal_strlit("\"");
    let mark = "DeviceID=\""@;
    assert(mark =~= seq!['D', 'e', 'v', 'i', 'c', 'e', 'I', 'D', '=', '"']);
    assert("\""@ =~= seq!['"']);
    parse::law_marks_are_found_where_they_stand(before, mark, letter + seq!['"'] + after);
    parse::law_the_first_piece_ends_at_the_separator(letter, '"', after);
}

/// A row of the table gives the path in its second field, the kind of medium in the third and the size
/// in the last. All that stands between is the model, which may hold commas itself.
pub proof fn law_rows_are_read_by_their_fields(
    node: Seq<char>,
    path: Seq<char>,
    kind: Seq<char>,
    model: Seq<char>,
    size: nat,
)
    requires
        !node.contains(','),
        !path.contains(','),
        !kind.contains(','),
        parse::trimmed(path) == path,
        parse::trimmed(model) == model,
        model.len() > 0,
        size <= u64::MAX,
    ensures
        ({
            let row = node + seq![','] + (path + seq![','] + (kind + seq![','] + (model + seq![',']
                + text::decimal(size))));
            &&& row_disk(row) is Some
            &&& row_disk(row)->0.path == path
            &&& row_disk(row)->0.size_bytes == size
            &&& row_disk(row)->0.is_removable == names_removable(parse::trimmed(kind))
            &&& row_disk(row)->0.display_name == drives::shown_name(path, model, size)
        }),
{
    reveal_strlit(",");
    assert(","@ =~= seq![',']);
    let digits = text::decimal(size);
    parse::law_written_numbers_are_read_back(size, u64::MAX as nat);
    assert(parse::is_digit(digits[0]) && parse::is_digit(digits[digits.len() - 1]));
    assert(parse::trimmed(digits) == digits) by {
        parse::law_texts_without_blanks_around_stay(digits);
    }
    assert(!digits.contains(',')) by {
        if digits.contains(',') {
            let k = choose|k: int| 0 <= k < digits.len() && digits[k] == ',';
            assert(parse::is_digit(digits[k]));
        }
    }
    let row = node + seq![','] + (path + seq![','] + (kind + seq![','] + (model + seq![','] + digits)));
    let fields = parse::pieces(row, ","@);
    let names = parse::pieces(model, ","@);
    assert(fields =~= seq![node, path, kind] + names + seq![digits]) by {
        lemma_fields(node, path, kind, model, digits);
    }
    assert(names.len() >= 1 && text::joined(names, ","@) == model) by {
        parse::law_pieces_make_up_the_text(model, ","@);
    }
    assert(fields.subrange(3, fields.len() - 1) =~= names);
    assert(fields[1] == path && fields[2] == kind && fields.last() == digits);
}

proof fn lemma_fields(
    node: Seq<char>,
    path: Seq<char>,
    kind: Seq<char>,
    model: Seq<char>,
    digits: Seq<char>,
)
    requires
        !node.contains(','),
        !path.contains(','),
        !kind.contains(','),
        !digits.contains(','),
    ensures
        parse::pieces(
            node + seq![','] + (path + seq![','] + (kind + seq![','] + (model + seq![','] + digits))),
            seq![','],
        ) == seq![node, path, kind] + parse::pieces(model, seq![',']) + seq![digits],
{
    let four = model + seq![','] + digits;
    let three = kind + seq![','] + four;
    let two = path + seq![','] + three;
    parse::law_the_first_piece_ends_at_the_separator(node, ',', two);
    parse::law_the_first_piece_ends_at_the_separator(path, ',', three);
    parse::law_the_first_piece_ends_at_the_separator(kind, ',', four);
    parse::law_pieces_follow_each_other(model, ',', digits);
    parse::law_the_first_piece_ends_at_the_separator(digits, ',', Seq::empty());
    assert(parse::pieces(
        node + seq![','] + two,
        seq![','],
    ) =~= seq![node, path, kind] + parse::pieces(model, seq![',']) + seq![digits]);
}

/// A disk has all the letters of its number, and no others.
pub proof fn law_disks_have_the_letters_of_their_number(
    letters: Seq<(String, String)>,
    number: Seq<char>,
    letter: Seq<char>,
)
    ensures
        letters_of(letters, number).contains(letter) <==> exists|i: int|
            0 <= i < letters.len() && (#[trigger] letters[i]).0@ == number && letters[i].1@ == letter,
    decreases letters.len(),
{
    if letters.len() > 0 {
        let front = letters.drop_last();
        law_disks_have_the_letters_of_their_number(front, number, letter);
        let (before, all) = (letters_of(front, number), letters_of(letters, number));
        let last = letters[letters.len() - 1];
        if before.contains(letter) {
            let k = choose|k: int| 0 <= k < before.len() && before[k] == letter;
            assert(all[k] == letter);
            let i = choose|i: int|
                0 <= i < front.len() && (#[trigger] front[i]).0@ == number && front[i].1@ == letter;
            assert(letters[i] == front[i]);
        } else {
            if last.0@ == number && last.1@ == letter {
                assert(all[before.len() as int] == letter);
            }
            assert forall|i: int|
                0 <= i < letters.len() && (#[trigger] letters[i]).0@ == number && letters[i].1@
                    == letter implies all.contains(letter) by {
                if i < front.len() {
                    assert(front[i] == letters[i]);
                }
            }
            if all.contains(letter) {
                let k = choose|k: int| 0 <= k < all.len() && all[k] == letter;
                if k < before.len() {
                    assert(before[k] == letter);
                }
            }
        }
    }
}

/// Every disk of a report that has a path is listed, with its size where that is a number, and with
/// the letters of the number that its path ends in.
pub proof fn law_disks_with_a_path_are_listed(
    disks: Seq<WmiDisk>,
    letters: Seq<(String, String)>,
    i: int,
    stem: Seq<char>,
    number: nat,
    size: nat,
)
    requires
        0 <= i < disks.len(),
        disks[i].device_id is Some,
        disks[i].device_id->0@ == stem + text::decimal(number),
        stem.len() > 0 ==> !('0' <= stem.last() <= '9'),
        disks[i].size is Some,
        disks[i].size->0@ == text::decimal(size),
        size <= u64::MAX,
    ensures
        exists|k: int| 0 <= k < disks_of(disks, letters).len() && {
            let disk = #[trigger] disks_of(disks, letters)[k];
            &&& disk.path == disks[i].device_id->0@
            &&& disk.size_bytes == size
            &&& disk.all_mounts == letters_of(letters, text::decimal(number))
            &&& disk.letter is Some <==> disk.all_mounts.len() > 0
            &&& disk.letter is Some ==> disk.letter->0 == disk.all_mounts[0]
            &&& disk.is_removable == (disks[i].media_type is Some && names_removable(
                disks[i].media_type->0@,
            ))
        },
    decreases disks.len(),
{
    let before = disks_of(disks.drop_last(), letters);
    let all = disks_of(disks, letters);
    if i == disks.len() - 1 {
        parse::law_written_numbers_are_read_back(size, u64::MAX as nat);
        parse::law_written_numbers_are_read_back(number, number);
        parse::law_trailing_digits_start_behind_the_last_other(stem, text::decimal(number));
        lemma_nothing_is_not_removable();
        assert(all[before.len() as int] == disk_of(disks[i], letters));
    } else {
        assert(disks.drop_last()[i] == disks[i]);
        law_disks_with_a_path_are_listed(disks.drop_last(), letters, i, stem, number, size);
        let k = choose|k: int| 0 <= k < before.len() && {
            let disk = #[trigger] before[k];
            &&& disk.path == disks[i].device_id->0@
            &&& disk.size_bytes == size
            &&& disk.all_mounts == letters_of(letters, text::decimal(number))
            &&& disk.letter is Some <==> disk.all_mounts.len() > 0
            &&& disk.letter is Some ==> disk.letter->0 == disk.all_mounts[0]
            &&& disk.is_removable == (disks[i].media_type is Some && names_removable(
                disks[i].media_type->0@,
            ))
        };
        assert(all[k] == before[k]);
    }
}

proof fn lemma_nothing_is_not_removable()
    ensures
        !names_removable(""@),
{
    reveal_strlit("");
    reveal_strlit("removable");
    reveal_strlit("external");
    assert(parse::lowered(""@).len() == 0);
    assert("removable"@.len() == 9 && "external"@.len() == 8);
}

} // verus!
