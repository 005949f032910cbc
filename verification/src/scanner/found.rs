//! A file found in the source, and how far its end can be trusted.

use vstd::prelude::*;
use vstd::string::*;

use crate::parse;
use crate::scanner::buffer;
use crate::signatures::{self, magic, table, FileSignature};
use crate::text;
use crate::util;

verus! {

/// A file found by scanning.
#[derive(Debug, Clone, Copy)]
pub struct FoundFile {
    pub signature: FileSignature,
    pub offset: u64,
    pub size: u64,
    pub index: usize,
    /// The size follows from the bytes of the file (a footer, a size field, a closed chain) and
    /// not from the largest size of its format.
    pub footer_found: bool,
    /// The end could not be settled for an outside reason, such as a read error, and not because
    /// the file was seen not to close. Such a file may well be a real one.
    pub end_unknown: bool,
}

/// How far the end of a carved file can be trusted.
#[derive(Debug, Clone, Copy, PartialEq, Eq, Structural)]
pub enum Integrity {
    /// The real end was found.
    Intact,
    /// The format has an end that can be found, and it was not there.
    Suspect,
    /// The end can be neither confirmed nor denied.
    Unverifiable,
}

impl Integrity {
    /// Place of this state in a list: the most trustworthy first, the doubtful last.
    pub fn display_rank(self) -> (rank: u8)
        ensures
            rank == rank_of(self),
    {
        match self {
            Integrity::Intact => 0,
            Integrity::Unverifiable => 1,
            Integrity::Suspect => 2,
        }
    }
}

/// Place of a state in a list.
pub open spec fn rank_of(state: Integrity) -> int {
    match state {
        Integrity::Intact => 0,
        Integrity::Unverifiable => 1,
        Integrity::Suspect => 2,
    }
}

/// The end of a file of this format can be found in its bytes.
pub open spec fn end_detectable(signature: FileSignature) -> bool {
    ||| signature.footer is Some
    ||| signature.size_from_header is Some
    ||| buffer::is_zip_ooxml(signature)
    ||| signatures::stream_format(signature.name@) is Some
}

/// How far the end of a find can be trusted. An end that could not be settled for an outside
/// reason is neither confirmed nor denied, even where the extent is known.
pub open spec fn integrity_of(file: FoundFile) -> Integrity {
    if !end_detectable(file.signature) || file.end_unknown {
        Integrity::Unverifiable
    } else if file.footer_found {
        Integrity::Intact
    } else {
        Integrity::Suspect
    }
}

/// Name under which a find is saved.
pub open spec fn filename_of(file: FoundFile) -> Seq<char> {
    "recovered_"@ + text::zero_padded(text::decimal(file.index as nat), 4) + "."@
        + file.signature.extension@
}

/// Line that shows a find to the user: a mark, what it is, its name and its size.
pub open spec fn summary_of(file: FoundFile) -> Seq<char> {
    let (mark, suffix) = match integrity_of(file) {
        Integrity::Intact => ("✅ "@, ""@),
        Integrity::Suspect => ("⚠️  "@, "  (posiblemente dañado)"@),
        Integrity::Unverifiable => ("   "@, ""@),
    };
    mark + signatures::category_label(file.signature.category) + " "@ + filename_of(file) + " — "@
        + util::size_text(file.size as nat) + suffix
}

/// Line that shows a find with its place in the source.
pub open spec fn label_of(file: FoundFile) -> Seq<char> {
    signatures::category_label(file.signature.category) + " | "@ + file.signature.name@ + " (."@
        + file.signature.extension@ + ")"@ + " | offset: 0x"@ + text::number(file.offset as nat, 16)
        + " | "@ + util::size_text(file.size as nat)
}

impl FoundFile {
    /// Name under which this find is saved.
    pub fn recovered_filename(&self) -> (name: String)
        ensures
            name@ == filename_of(*self),
    {
        let mut name = text::owned("recovered_");
        text::push_decimal_4(&mut name, self.index as u64);
        name.append(".");
        name.append(self.signature.extension);
        name
    }

    /// How far the end of this find can be trusted.
    pub fn integrity(&self) -> (state: Integrity)
        ensures
            state == integrity_of(*self),
    {
        let detectable = self.signature.footer.is_some()
            || self.signature.size_from_header.is_some() || buffer::signature_is_zip_ooxml(
            &self.signature,
        ) || self.signature.stream_end().is_some();
        if !detectable || self.end_unknown {
            Integrity::Unverifiable
        } else if self.footer_found {
            Integrity::Intact
        } else {
            Integrity::Suspect
        }
    }

    /// Line that shows this find to the user.
    pub fn friendly_summary(&self) -> (line: String)
        ensures
            line@ == summary_of(*self),
    {
        let (mark, suffix) = match self.integrity() {
            Integrity::Intact => ("✅ ", ""),
            Integrity::Suspect => ("⚠️  ", "  (posiblemente dañado)"),
            Integrity::Unverifiable => ("   ", ""),
        };
        let mut line = text::owned(mark);
        line.append(self.signature.category.label());
        line.append(" ");
        line.append(self.recovered_filename().as_str());
        line.append(" — ");
        line.append(util::format_size(self.size).as_str());
        line.append(suffix);
        line
    }

    /// Line that shows this find with its place in the source.
    pub fn label(&self) -> (line: String)
        ensures
            line@ == label_of(*self),
    {
        let mut line = text::owned(self.signature.category.label());
        line.append(" | ");
        line.append(self.signature.label().as_str());
        line.append(" | offset: 0x");
        text::push_number(&mut line, self.offset, 16);
        line.append(" | ");
        line.append(util::format_size(self.size).as_str());
        assert(line@ =~= label_of(*self));
        line
    }
}

/// The finds of one rank, as they stand.
pub open spec fn of_rank(files: Seq<FoundFile>, rank: int) -> Seq<FoundFile> {
    files.filter(|file: FoundFile| rank_of(integrity_of(file)) == rank)
}

/// The finds as they are shown: the ones that can be trusted first, the doubtful ones last, and
/// those of one state in the order in which they were found.
pub open spec fn presented(files: Seq<FoundFile>) -> Seq<FoundFile> {
    of_rank(files, 0) + of_rank(files, 1) + of_rank(files, 2)
}

/// The finds as they are shown.
pub fn in_display_order(files: &[FoundFile]) -> (shown: Vec<FoundFile>)
    ensures
        shown@ == presented(files@),
{
    let mut shown: Vec<FoundFile> = Vec::new();
    push_of_rank(&mut shown, files, 0);
    push_of_rank(&mut shown, files, 1);
    push_of_rank(&mut shown, files, 2);
    assert(shown@ =~= presented(files@));
    shown
}

/// Adds the finds of one rank.
fn push_of_rank(shown: &mut Vec<FoundFile>, files: &[FoundFile], rank: u8)
    ensures
        final(shown)@ == old(shown)@ + of_rank(files@, rank as int),
{
    let ghost before = shown@;
    let ghost wanted = |file: FoundFile| rank_of(integrity_of(file)) == rank;
    let mut i: usize = 0;
    assert(files@.take(0).filter(wanted) =~= Seq::<FoundFile>::empty()) by {
        reveal(Seq::filter);
    }
    while i < files.len()
        invariant
            i <= files@.len(),
            wanted == (|file: FoundFile| rank_of(integrity_of(file)) == rank),
            shown@ =~= before + files@.take(i as int).filter(wanted),
        decreases files@.len() - i,
    {
        let file = files[i];
        proof {
            reveal(Seq::filter);
            assert(files@.take(i as int + 1).drop_last() =~= files@.take(i as int));
        }
        if file.integrity().display_rank() == rank {
            shown.push(file);
        }
        i = i + 1;
    }
    assert(files@.take(files@.len() as int) =~= files@);
    assert(of_rank(files@, rank as int) =~= files@.filter(wanted)) by {
        assert(wanted =~= (|file: FoundFile| rank_of(integrity_of(file)) == rank as int));
    }
}

/// Showing the finds hides none of them and shows none twice, and a find is never shown before one
/// that can be trusted more.
pub proof fn law_presentation_hides_nothing(files: Seq<FoundFile>)
    ensures
        presented(files).to_multiset() == files.to_multiset(),
        forall|i: int, j: int|
            0 <= i < j < presented(files).len() ==> rank_of(
                integrity_of(#[trigger] presented(files)[i]),
            ) <= rank_of(integrity_of(#[trigger] presented(files)[j])),
{
    lemma_ranks_make_up_the_finds(files);
    lemma_one_rank(files, 0);
    lemma_one_rank(files, 1);
    lemma_one_rank(files, 2);
}

proof fn lemma_one_rank(files: Seq<FoundFile>, rank: int)
    ensures
        forall|i: int|
            0 <= i < of_rank(files, rank).len() ==> rank_of(
                integrity_of(#[trigger] of_rank(files, rank)[i]),
            ) == rank,
{
    broadcast use vstd::seq_lib::group_filter_ensures;

}

proof fn lemma_ranks_make_up_the_finds(files: Seq<FoundFile>)
    ensures
        presented(files).to_multiset() =~= files.to_multiset(),
    decreases files.len(),
{
    broadcast use vstd::seq_lib::group_to_multiset_ensures;

    let (a, b, c) = (of_rank(files, 0), of_rank(files, 1), of_rank(files, 2));
    vstd::seq_lib::lemma_multiset_commutative(a, b);
    vstd::seq_lib::lemma_multiset_commutative(a + b, c);
    reveal(Seq::filter);
    if files.len() > 0 {
        let rest = files.drop_last();
        let last = files.last();
        lemma_ranks_make_up_the_finds(rest);
        let (ra, rb, rc) = (of_rank(rest, 0), of_rank(rest, 1), of_rank(rest, 2));
        vstd::seq_lib::lemma_multiset_commutative(ra, rb);
        vstd::seq_lib::lemma_multiset_commutative(ra + rb, rc);
        assert(files =~= rest.push(last));
        let rank = rank_of(integrity_of(last));
        assert(a == if rank == 0 { ra.push(last) } else { ra });
        assert(b == if rank == 1 { rb.push(last) } else { rb });
        assert(c == if rank == 2 { rc.push(last) } else { rc });
    }
}

/// What could not be settled is never called intact, and never called doubtful either: it is
/// saved without claiming anything of its end.
pub proof fn law_unsettled_ends_are_unverifiable(file: FoundFile)
    requires
        file.end_unknown,
    ensures
        integrity_of(file) == Integrity::Unverifiable,
{
}

/// The three states are listed in this order: intact, unverifiable, suspect.
pub proof fn law_ranks_are_ordered()
    ensures
        rank_of(Integrity::Intact) < rank_of(Integrity::Unverifiable) < rank_of(
            Integrity::Suspect,
        ),
{
}

/// The name under which a find is saved tells its number, with four digits at least, and its format.
pub proof fn law_names_tell_number_and_format(file: FoundFile)
    ensures
        exists|digits: Seq<char>|
            filename_of(file) == "recovered_"@ + digits + "."@ + file.signature.extension@
                && digits.len() >= 4 && #[trigger] parse::number_in(digits, u64::MAX as nat) == Some(
                file.index as nat,
            ),
{
    let plain = text::decimal(file.index as nat);
    let digits = text::zero_padded(plain, 4);
    parse::law_written_numbers_are_read_back(file.index as nat, u64::MAX as nat);
    text::law_filling_up_keeps_the_text(plain, 4);
    let n = digits.len() - plain.len();
    lemma_zeros_do_not_count(digits, n, plain);
    assert(parse::is_digit(plain[0]));
    assert(parse::number_in(digits, u64::MAX as nat) == Some(file.index as nat));
}

proof fn lemma_zeros_do_not_count(digits: Seq<char>, n: int, plain: Seq<char>)
    requires
        0 <= n,
        n + plain.len() == digits.len(),
        digits.skip(n) == plain,
        parse::all_digits(plain),
        plain.len() > 0,
        forall|k: int| 0 <= k < n ==> #[trigger] digits[k] == '0',
    ensures
        parse::all_digits(digits),
        parse::value_of(digits) == parse::value_of(plain),
        digits[0] != '+',
{
    assert forall|k: int| 0 <= k < digits.len() implies parse::is_digit(#[trigger] digits[k]) by {
        if k >= n {
            assert(digits.skip(n)[k - n] == plain[k - n]);
            assert(parse::is_digit(plain[k - n]));
        }
    }
    lemma_value_behind_zeros(digits, n, digits.len() as int);
    assert(digits.subrange(0, digits.len() as int) =~= digits);
    assert(digits.subrange(n, digits.len() as int) =~= plain);
    assert(parse::is_digit(digits[0]));
}

proof fn lemma_value_behind_zeros(digits: Seq<char>, n: int, to: int)
    requires
        0 <= n <= to <= digits.len(),
        forall|k: int| 0 <= k < n ==> #[trigger] digits[k] == '0',
    ensures
        parse::value_of(digits.subrange(0, to)) == parse::value_of(digits.subrange(n, to)),
    decreases to,
{
    let (a, b) = (digits.subrange(0, to), digits.subrange(n, to));
    if to > n {
        lemma_value_behind_zeros(digits, n, to - 1);
        assert(a.drop_last() =~= digits.subrange(0, to - 1));
        assert(b.drop_last() =~= digits.subrange(n, to - 1));
    } else if to > 0 {
        lemma_value_behind_zeros(digits, n - 1, to - 1);
        assert(a.drop_last() =~= digits.subrange(0, to - 1));
        assert(digits.subrange(n - 1, to - 1) =~= Seq::<char>::empty());
        assert(b =~= Seq::<char>::empty());
        assert(a.last() == digits[to - 1]);
    }
}

/// Of the known formats, those have an end that can be found that end with a footer, a size field, a
/// chain of frames or boxes, or the record of a package. What has one and shows it is intact, what
/// has one and does not show it is suspect, and nothing is said of the others.
pub proof fn law_only_ends_that_can_be_found_are_missed(file: FoundFile, i: int)
    requires
        0 <= i < 28,
        file.signature.model() == table::known_signatures()[i],
        !file.end_unknown,
    ensures
        ({
            let has_end = i <= 3 || i == 8 || i == 9 || i == 13 || i == 14 || i == 15 || i == 19 || i
                == 20 || i >= 24;
            integrity_of(file) == if !has_end {
                Integrity::Unverifiable
            } else if file.footer_found {
                Integrity::Intact
            } else {
                Integrity::Suspect
            }
        }),
{
    let signature = file.signature;
    magic::law_streams_are_followed(signature);
    if 4 <= i <= 7 || 10 <= i <= 12 || 16 <= i <= 18 || 21 <= i <= 23 {
        lemma_no_streams(i);
    }
    assert(signature.header@ == table::known_signatures()[i].header);
}

proof fn lemma_no_streams(i: int)
    requires
        4 <= i <= 7 || 10 <= i <= 12 || 16 <= i <= 18 || 21 <= i <= 23,
    ensures
        signatures::stream_format(table::known_signatures()[i].name) is None,
        table::known_signatures()[i].footer is None,
        table::known_signatures()[i].size_from_header is None,
        table::known_signatures()[i].header != table::zip_entry(),
{
    reveal_strlit("MP3 (ID3)");
    reveal_strlit("MP3 (Sync)");
    reveal_strlit("AAC");
    reveal_strlit("MP4/M4V");
    reveal_strlit("HEIC/HEIF");
    reveal_strlit("3GP");
    reveal_strlit("M4A");
    reveal_strlit("WebP");
    reveal_strlit("CR2 (Canon RAW)");
    reveal_strlit("TIFF");
    reveal_strlit("TIFF (big-endian)");
    reveal_strlit("AVI");
    reveal_strlit("MKV");
    reveal_strlit("FLV");
    reveal_strlit("WAV");
    reveal_strlit("FLAC");
    reveal_strlit("OGG Vorbis");
    reveal_strlit("WMA");
    reveal_strlit("AMR (Nota de voz)");
    reveal_strlit("OPUS");
    assert("MP3 (ID3)"@.len() == 9 && "MP3 (Sync)"@.len() == 10 && "MP4/M4V"@.len() == 7
        && "HEIC/HEIF"@.len() == 9 && "AAC"@.len() == 3 && "3GP"@.len() == 3 && "M4A"@.len() == 3);
    assert("WebP"@.len() == 4 && "CR2 (Canon RAW)"@.len() == 15 && "TIFF"@.len() == 4
        && "TIFF (big-endian)"@.len() == 17 && "FLAC"@.len() == 4 && "OPUS"@.len() == 4
        && "AMR (Nota de voz)"@.len() == 17 && "OGG Vorbis"@.len() == 10);
    assert("AAC"@[1] == 'A' && "3GP"@[1] == 'G' && "M4A"@[1] == '4' && "AVI"@[1] == 'V'
        && "MKV"@[1] == 'K' && "FLV"@[1] == 'L' && "WAV"@[1] == 'A' && "WMA"@[1] == 'M');
    assert("WAV"@[0] == 'W' && "AAC"@[0] == 'A' && "OGG Vorbis"@[0] == 'O' && "MP3 (Sync)"@[0] == 'M');
    let header = table::known_signatures()[i].header;
    assert(table::zip_entry()[0] == 0x50 && table::zip_entry()[1] == 0x4B);
    assert(header[0] != 0x50);
}

/// A find is shown with a tick only where it is intact, and with a warning only where it is suspect.
pub proof fn law_marks_tell_the_state(file: FoundFile)
    ensures
        summary_of(file)[0] == match integrity_of(file) {
            Integrity::Intact => '✅',
            Integrity::Suspect => '⚠',
            Integrity::Unverifiable => ' ',
        },
{
    reveal_strlit("✅ ");
    reveal_strlit("⚠️  ");
    reveal_strlit("   ");
    let mark = match integrity_of(file) {
        Integrity::Intact => "✅ "@,
        Integrity::Suspect => "⚠️  "@,
        Integrity::Unverifiable => "   "@,
    };
    assert("✅ "@[0] == '✅' && "⚠️  "@[0] == '⚠' && "   "@[0] == ' ');
    assert(mark.len() > 0);
    assert(summary_of(file)[0] == mark[0]);
}

} // verus!
