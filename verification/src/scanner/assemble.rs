//! Putting the finds of all segments together.

use vstd::prelude::*;
use vstd::string::*;

use crate::scanner::buffer;
use crate::scanner::found::FoundFile;
use crate::scanner::order;
use crate::scanner::refine;
use crate::scanner::segment_scan::SegmentResult;
use crate::signatures::FileCategory;
use crate::text;
use crate::util;

verus! {

/// Result of a scan.
pub struct ScanResult {
    pub found_files: Vec<FoundFile>,
    pub bytes_scanned: u64,
    pub photos_count: usize,
    pub videos_count: usize,
    pub audios_count: usize,
    pub documents_count: usize,
    /// A part of the source could not be read, so finds may be missing.
    pub had_errors: bool,
    /// The user cancelled; what was found until then is kept.
    pub cancelled: bool,
}

/// The finds of the first `n` segments, one segment after the other.
pub open spec fn joined(parts: Seq<SegmentResult>, n: int) -> Seq<FoundFile>
    decreases n,
{
    if n <= 0 {
        Seq::empty()
    } else {
        joined(parts, n - 1) + parts[n - 1].found_files@
    }
}

/// The files in the order of their offsets; those at the same offset keep their order.
pub open spec fn by_offset(files: Seq<FoundFile>) -> Seq<FoundFile> {
    let list = choose|list: Seq<usize>| order::is_order(refine::offset_keys(files), list);
    Seq::new(files.len(), |k: int| files[list[k] as int])
}

/// The same file found twice: same offset, same extension.
pub open spec fn same_find(a: FoundFile, b: FoundFile) -> bool {
    a.offset == b.offset && a.signature.extension@ == b.signature.extension@
}

/// The files without those that repeat the last one kept.
pub open spec fn without_repeats(files: Seq<FoundFile>) -> Seq<FoundFile>
    decreases files.len(),
{
    if files.len() == 0 {
        files
    } else {
        let before = without_repeats(files.drop_last());
        if before.len() > 0 && same_find(before.last(), files.last()) {
            before
        } else {
            before.push(files.last())
        }
    }
}

/// The files numbered from 1 on.
pub open spec fn numbered(files: Seq<FoundFile>) -> Seq<FoundFile> {
    Seq::new(files.len(), |i: int| FoundFile { index: (i + 1) as usize, ..files[i] })
}

/// How many files are of this category.
pub open spec fn count_of(files: Seq<FoundFile>, category: FileCategory) -> nat
    decreases files.len(),
{
    if files.len() == 0 {
        0
    } else {
        count_of(files.drop_last(), category) + if files.last().signature.category == category {
            1nat
        } else {
            0nat
        }
    }
}

/// Puts the finds of all segments together: by offset, each file once, numbered from 1 on.
/// Returns also whether a segment could not be read in full.
pub fn merge_segments(parts: &Vec<SegmentResult>) -> (merged: (Vec<FoundFile>, bool))
    ensures
        merged.0@ == numbered(
            without_repeats(by_offset(joined(parts@, parts@.len() as int))),
        ),
        merged.1 == exists|i: int| 0 <= i < parts@.len() && (#[trigger] parts@[i]).had_errors,
        joined(parts@, parts@.len() as int).len() <= usize::MAX,
{
    let mut all: Vec<FoundFile> = Vec::new();
    let mut had_errors = false;
    let mut p: usize = 0;
    while p < parts.len()
        invariant
            p <= parts@.len(),
            all@ == joined(parts@, p as int),
            had_errors == exists|i: int| 0 <= i < p && (#[trigger] parts@[i]).had_errors,
        decreases parts@.len() - p,
    {
        let part = &parts[p];
        let ghost before = all@;
        let mut i: usize = 0;
        while i < part.found_files.len()
            invariant
                i <= part.found_files@.len(),
                all@ == before + part.found_files@.take(i as int),
            decreases part.found_files@.len() - i,
        {
            all.push(part.found_files[i]);
            i = i + 1;
            assert(all@ =~= before + part.found_files@.take(i as int));
        }
        assert(part.found_files@.take(i as int) =~= part.found_files@);
        if part.had_errors {
            had_errors = true;
            assert(parts@[p as int].had_errors);
        }
        p = p + 1;
    }
    assert(all.len() == all@.len());
    let sorted = sort_by_offset(&all);
    let mut kept: Vec<FoundFile> = Vec::new();
    let mut i: usize = 0;
    while i < sorted.len()
        invariant
            i <= sorted@.len(),
            kept@ == without_repeats(sorted@.take(i as int)),
        decreases sorted@.len() - i,
    {
        let file = sorted[i];
        proof {
            assert(sorted@.take(i as int + 1).drop_last() =~= sorted@.take(i as int));
            assert(sorted@.take(i as int + 1).last() == file);
        }
        let repeated = if kept.len() == 0 {
            false
        } else {
            let last = kept[kept.len() - 1];
            last.offset == file.offset && text::same_text(
                last.signature.extension,
                file.signature.extension,
            )
        };
        if !repeated {
            kept.push(file);
        }
        i = i + 1;
    }
    assert(sorted@.take(sorted@.len() as int) =~= sorted@);
    let ghost plain = kept@;
    let mut n: usize = 0;
    while n < kept.len()
        invariant
            n <= kept@.len(),
            kept@.len() == plain.len(),
            forall|k: int| n <= k < plain.len() ==> kept@[k] == plain[k],
            forall|k: int| 0 <= k < n ==> kept@[k] == numbered(plain)[k],
        decreases kept@.len() - n,
    {
        let file = kept[n];
        kept.set(n, FoundFile { index: n + 1, ..file });
        n = n + 1;
    }
    assert(kept@ =~= numbered(plain));
    (kept, had_errors)
}

fn sort_by_offset(files: &Vec<FoundFile>) -> (sorted: Vec<FoundFile>)
    ensures
        sorted@ == by_offset(files@),
{
    let mut keys: Vec<(u64, u64)> = Vec::new();
    let mut i: usize = 0;
    while i < files.len()
        invariant
            i <= files@.len(),
            keys@ =~= refine::offset_keys(files@).take(i as int),
        decreases files@.len() - i,
    {
        keys.push((files[i].offset, 0));
        i = i + 1;
    }
    assert(keys@ =~= refine::offset_keys(files@));
    let list = order::stable_order(&keys);
    proof {
        let chosen = choose|chosen: Seq<usize>|
            order::is_order(refine::offset_keys(files@), chosen);
        order::law_order_is_unique(refine::offset_keys(files@), list@, chosen);
    }
    let mut sorted: Vec<FoundFile> = Vec::new();
    let mut k: usize = 0;
    while k < list.len()
        invariant
            k <= list@.len(),
            list@.len() == files@.len(),
            order::is_order(refine::offset_keys(files@), list@),
            sorted@.len() == k,
            forall|m: int| 0 <= m < k ==> sorted@[m] == files@[list@[m] as int],
        decreases list@.len() - k,
    {
        sorted.push(files[list[k]]);
        k = k + 1;
    }
    assert(sorted@ =~= by_offset(files@));
    sorted
}

fn count_category(files: &Vec<FoundFile>, category: FileCategory) -> (count: usize)
    ensures
        count == count_of(files@, category),
{
    let mut count: usize = 0;
    let mut i: usize = 0;
    while i < files.len()
        invariant
            i <= files.len(),
            count <= i,
            count == count_of(files@.take(i as int), category),
        decreases files@.len() - i,
    {
        proof {
            assert(files@.take(i as int + 1).drop_last() =~= files@.take(i as int));
            assert(files@.take(i as int + 1).last() == files@[i as int]);
        }
        if files[i].signature.category == category {
            count = count + 1;
        }
        i = i + 1;
    }
    assert(files@.take(files@.len() as int) =~= files@);
    count
}

/// The counts of a result are those of its files.
pub open spec fn counts_are_right(result: ScanResult) -> bool {
    &&& result.photos_count == count_of(result.found_files@, FileCategory::Photo)
    &&& result.videos_count == count_of(result.found_files@, FileCategory::Video)
    &&& result.audios_count == count_of(result.found_files@, FileCategory::Audio)
    &&& result.documents_count == count_of(result.found_files@, FileCategory::Document)
}

impl ScanResult {
    /// Puts the result of a scan together.
    pub fn new(
        found_files: Vec<FoundFile>,
        bytes_scanned: u64,
        had_errors: bool,
        cancelled: bool,
    ) -> (result: Self)
        ensures
            result.found_files@ == found_files@,
            result.bytes_scanned == bytes_scanned,
            counts_are_right(result),
            result.had_errors == had_errors,
            result.cancelled == cancelled,
    {
        let photos_count: usize = count_category(&found_files, FileCategory::Photo);
        let videos_count: usize = count_category(&found_files, FileCategory::Video);
        let audios_count: usize = count_category(&found_files, FileCategory::Audio);
        let documents_count: usize = count_category(&found_files, FileCategory::Document);
        ScanResult {
            found_files,
            bytes_scanned,
            photos_count,
            videos_count,
            audios_count,
            documents_count,
            had_errors,
            cancelled,
        }
    }
}

/// Text that sums a scan up. A partial result is never shown as a complete one.
pub open spec fn summary_of(result: ScanResult) -> Seq<char> {
    let counts = "📊 Resumen: "@ + text::decimal(result.found_files@.len())
        + " archivos encontrados\n   📷 Fotos: "@ + text::decimal(result.photos_count as nat)
        + "  |  🎬 Videos: "@ + text::decimal(result.videos_count as nat) + "  |  🎵 Audios: "@
        + text::decimal(result.audios_count as nat) + "  |  📄 Documentos: "@ + text::decimal(
        result.documents_count as nat,
    ) + "\n   💾 Bytes escaneados: "@ + util::size_text(result.bytes_scanned as nat);
    let cancelled = if result.cancelled {
        "\n   ⏹️  Cancelaste el escaneo antes de terminar — abajo está solo lo que se\n       alcanzó a encontrar hasta ese punto. Puedes recuperarlo igual."@
    } else {
        ""@
    };
    let damaged = if result.had_errors {
        "\n   ⚠️  El escaneo tuvo errores de I/O leyendo el origen (sectores dañados u\n       otro fallo de lectura) — el resultado es parcial: puede faltar contenido de\n       las zonas que no se pudieron leer."@
    } else {
        ""@
    };
    counts + cancelled + damaged
}

impl ScanResult {
    /// Text that sums this scan up.
    pub fn summary(&self) -> (shown: String)
        ensures
            shown@ == summary_of(*self),
    {
        let mut shown = text::owned("📊 Resumen: ");
        text::push_decimal(&mut shown, self.found_files.len() as u64);
        shown.append(" archivos encontrados\n   📷 Fotos: ");
        text::push_decimal(&mut shown, self.photos_count as u64);
        shown.append("  |  🎬 Videos: ");
        text::push_decimal(&mut shown, self.videos_count as u64);
        shown.append("  |  🎵 Audios: ");
        text::push_decimal(&mut shown, self.audios_count as u64);
        shown.append("  |  📄 Documentos: ");
        text::push_decimal(&mut shown, self.documents_count as u64);
        shown.append("\n   💾 Bytes escaneados: ");
        shown.append(util::format_size(self.bytes_scanned).as_str());
        let cancelled = if self.cancelled {
            "\n   ⏹️  Cancelaste el escaneo antes de terminar — abajo está solo lo que se\n       alcanzó a encontrar hasta ese punto. Puedes recuperarlo igual."
        } else {
            ""
        };
        let damaged = if self.had_errors {
            "\n   ⚠️  El escaneo tuvo errores de I/O leyendo el origen (sectores dañados u\n       otro fallo de lectura) — el resultado es parcial: puede faltar contenido de\n       las zonas que no se pudieron leer."
        } else {
            ""
        };
        shown.append(cancelled);
        shown.append(damaged);
        shown
    }
}

/// Bytes of the source that a scan reports as read.
pub open spec fn bytes_reported(total: u64, file_size: u64, num_threads: usize) -> u64 {
    if num_threads > 1 && total > file_size { file_size } else { total }
}

/// No scan reports more than it has read, and several threads never more than the source holds. What
/// is within the source is reported as it is.
pub proof fn law_scans_report_what_they_read(total: u64, file_size: u64, num_threads: usize)
    ensures
        bytes_reported(total, file_size, num_threads) <= total,
        num_threads > 1 ==> bytes_reported(total, file_size, num_threads) <= file_size,
        num_threads <= 1 || total <= file_size ==> bytes_reported(total, file_size, num_threads)
            == total,
        num_threads > 1 && total > file_size ==> bytes_reported(total, file_size, num_threads)
            == file_size,
{
}

/// Bytes of the source that a scan reports as read. Segments overlap a little, so several threads
/// read more than the source holds.
pub fn reported_bytes(total: u64, file_size: u64, num_threads: usize) -> (bytes: u64)
    ensures
        num_threads <= 1 ==> bytes == total,
        num_threads > 1 ==> bytes == (if total <= file_size { total } else { file_size }),
        bytes == bytes_reported(total, file_size, num_threads),
{
    if num_threads > 1 && total > file_size {
        file_size
    } else {
        total
    }
}

/// The counts by category add up to the number of files.
pub proof fn law_counts_add_up(files: Seq<FoundFile>)
    ensures
        count_of(files, FileCategory::Photo) + count_of(files, FileCategory::Video) + count_of(
            files,
            FileCategory::Audio,
        ) + count_of(files, FileCategory::Document) == files.len(),
    decreases files.len(),
{
    if files.len() > 0 {
        law_counts_add_up(files.drop_last());
    }
}

/// Putting files in order neither adds nor loses any.
pub proof fn law_ordering_keeps_every_file(files: Seq<FoundFile>, file: FoundFile)
    requires
        files.len() <= usize::MAX,
    ensures
        by_offset(files).len() == files.len(),
        by_offset(files).contains(file) == files.contains(file),
        forall|i: int, j: int|
            0 <= i < j < files.len() ==> (#[trigger] by_offset(files)[i]).offset <= (
            #[trigger] by_offset(files)[j]).offset,
{
    order::law_order_exists(refine::offset_keys(files));
    let list = choose|list: Seq<usize>| order::is_order(refine::offset_keys(files), list);
    let sorted = by_offset(files);
    if files.contains(file) {
        let p = choose|p: int| 0 <= p < files.len() && files[p] == file;
        assert(list.contains(p as usize));
        let k = choose|k: int| 0 <= k < list.len() && list[k] == p as usize;
        assert(sorted[k] == file);
    }
    if sorted.contains(file) {
        let k = choose|k: int| 0 <= k < sorted.len() && sorted[k] == file;
        assert(files[list[k] as int] == file);
    }
    assert forall|i: int, j: int| 0 <= i < j < files.len() implies (#[trigger] sorted[i]).offset <= (
    #[trigger] sorted[j]).offset by {
        assert(order::comes_before(
            refine::offset_keys(files),
            list[i] as int,
            list[j] as int,
        ));
    }
}

/// A file that is left out as a repeat still has a find of the same offset and extension.
pub proof fn law_repeats_lose_nothing(files: Seq<FoundFile>, i: int)
    requires
        0 <= i < files.len(),
    ensures
        exists|k: int|
            0 <= k < without_repeats(files).len() && same_find(
                #[trigger] without_repeats(files)[k],
                files[i],
            ),
    decreases files.len(),
{
    let before = without_repeats(files.drop_last());
    let now = without_repeats(files);
    if i < files.len() - 1 {
        law_repeats_lose_nothing(files.drop_last(), i);
        let k = choose|k: int|
            0 <= k < before.len() && same_find(#[trigger] before[k], files.drop_last()[i]);
        assert(now[k] == before[k]);
    } else {
        assert(same_find(now[now.len() - 1], files[i]));
    }
}

/// Files of which no two are alike stay so when they are put in order and numbered, and none of
/// them is left out as a repeat.
pub proof fn law_merging_adds_no_repeats(files: Seq<FoundFile>)
    requires
        files.len() <= usize::MAX,
        buffer::has_no_repeats(files),
    ensures
        without_repeats(by_offset(files)) == by_offset(files),
        buffer::has_no_repeats(numbered(without_repeats(by_offset(files)))),
{
    order::law_order_exists(refine::offset_keys(files));
    let list = choose|list: Seq<usize>| order::is_order(refine::offset_keys(files), list);
    let sorted = by_offset(files);
    assert forall|i: int, j: int| 0 <= i < j < sorted.len() implies buffer::key_of(
        #[trigger] sorted[i],
    ) != buffer::key_of(#[trigger] sorted[j]) by {
        assert(order::comes_before(
            refine::offset_keys(files),
            list[i] as int,
            list[j] as int,
        ));
        if list[i] < list[j] {
            assert(buffer::key_of(files[list[i] as int]) != buffer::key_of(files[list[j] as int]));
        } else {
            assert(buffer::key_of(files[list[j] as int]) != buffer::key_of(files[list[i] as int]));
        }
    }
    lemma_no_repeats_to_leave_out(sorted);
    let last = numbered(sorted);
    assert forall|i: int, j: int| 0 <= i < j < last.len() implies buffer::key_of(
        #[trigger] last[i],
    ) != buffer::key_of(#[trigger] last[j]) by {
        assert(buffer::key_of(sorted[i]) != buffer::key_of(sorted[j]));
    }
}

proof fn lemma_no_repeats_to_leave_out(files: Seq<FoundFile>)
    requires
        buffer::has_no_repeats(files),
    ensures
        without_repeats(files) == files,
    decreases files.len(),
{
    if files.len() > 0 {
        let rest = files.drop_last();
        assert forall|i: int, j: int| 0 <= i < j < rest.len() implies buffer::key_of(
            #[trigger] rest[i],
        ) != buffer::key_of(#[trigger] rest[j]) by {
            assert(buffer::key_of(files[i]) != buffer::key_of(files[j]));
        }
        lemma_no_repeats_to_leave_out(rest);
        if rest.len() > 0 {
            let n = files.len() as int;
            assert(buffer::key_of(files[n - 2]) != buffer::key_of(files[n - 1]));
        }
        assert(rest.push(files.last()) =~= files);
    }
}

/// Merging keeps the extents as they are.
pub proof fn lemma_merged_extents_fit(files: Seq<FoundFile>)
    requires
        files.len() <= usize::MAX,
        refine::extents_fit(files),
    ensures
        refine::extents_fit(numbered(without_repeats(by_offset(files)))),
{
    order::law_order_exists(refine::offset_keys(files));
    let sorted = by_offset(files);
    assert forall|i: int| 0 <= i < sorted.len() implies refine::extent_fits(#[trigger] sorted[i]) by {
        let list = choose|list: Seq<usize>| order::is_order(refine::offset_keys(files), list);
        assert(sorted[i] == files[list[i] as int]);
    }
    lemma_without_repeats_extents_fit(sorted);
    let kept = without_repeats(sorted);
    assert forall|i: int| 0 <= i < kept.len() implies refine::extent_fits(
        #[trigger] numbered(kept)[i],
    ) by {
        assert(refine::extent_fits(kept[i]));
    }
}

proof fn lemma_without_repeats_extents_fit(files: Seq<FoundFile>)
    requires
        refine::extents_fit(files),
    ensures
        refine::extents_fit(without_repeats(files)),
    decreases files.len(),
{
    if files.len() > 0 {
        let rest = files.drop_last();
        assert forall|i: int| 0 <= i < rest.len() implies refine::extent_fits(#[trigger] rest[i]) by {
            assert(refine::extent_fits(files[i]));
        }
        lemma_without_repeats_extents_fit(rest);
        assert(refine::extent_fits(files[files.len() - 1]));
    }
}

/// Numbering gives the files the numbers from one on, in their order, and changes nothing else.
pub proof fn law_files_are_numbered_from_one(files: Seq<FoundFile>, i: int)
    requires
        0 <= i < files.len() <= usize::MAX,
    ensures
        numbered(files).len() == files.len(),
        numbered(files)[0].index == 1,
        numbered(files)[i].index == i + 1,
        numbered(files)[i].offset == files[i].offset,
        numbered(files)[i].size == files[i].size,
        numbered(files)[i].signature == files[i].signature,
        numbered(files)[i].footer_found == files[i].footer_found,
        numbered(files)[i].end_unknown == files[i].end_unknown,
{
}

/// The finds of all segments are put together: what a segment found is there, and nothing else.
pub proof fn law_joining_keeps_every_find(parts: Seq<SegmentResult>, n: int, file: FoundFile)
    requires
        0 <= n <= parts.len(),
    ensures
        joined(parts, n).contains(file) <==> exists|i: int|
            0 <= i < n && (#[trigger] parts[i]).found_files@.contains(file),
    decreases n,
{
    if n > 0 {
        law_joining_keeps_every_find(parts, n - 1, file);
        let (before, last) = (joined(parts, n - 1), parts[n - 1].found_files@);
        let all = joined(parts, n);
        if before.contains(file) {
            let k = choose|k: int| 0 <= k < before.len() && before[k] == file;
            assert(all[k] == file);
        }
        if last.contains(file) {
            let k = choose|k: int| 0 <= k < last.len() && last[k] == file;
            assert(all[before.len() + k] == file);
        }
        if all.contains(file) {
            let k = choose|k: int| 0 <= k < all.len() && all[k] == file;
            if k < before.len() {
                assert(before[k] == file);
            } else {
                assert(last[k - before.len()] == file);
            }
        }
    }
}

/// A file counts for its own category and for no other.
pub proof fn law_files_count_for_their_category(
    files: Seq<FoundFile>,
    file: FoundFile,
    category: FileCategory,
)
    ensures
        count_of(files.push(file), category) == count_of(files, category) + if file.signature.category
            == category {
            1nat
        } else {
            0nat
        },
        count_of(Seq::empty(), category) == 0,
{
    assert(files.push(file).drop_last() =~= files);
}

/// What is left out as a repeat stands at the place of one that is kept, with its extension, and of
/// the files that are kept no two neighbours are alike.
pub proof fn law_neighbours_are_not_alike(files: Seq<FoundFile>, k: int)
    requires
        0 <= k,
        k + 1 < without_repeats(files).len(),
    ensures
        without_repeats(files)[k].offset != without_repeats(files)[k + 1].offset || without_repeats(
            files,
        )[k].signature.extension@ != without_repeats(files)[k + 1].signature.extension@,
    decreases files.len(),
{
    if files.len() > 0 {
        let before = without_repeats(files.drop_last());
        if k + 1 < before.len() {
            law_neighbours_are_not_alike(files.drop_last(), k);
        }
    }
}

/// Whatever is left out as a repeat, a file of its offset and its extension is kept.
pub proof fn law_only_repeats_are_left_out(files: Seq<FoundFile>, i: int)
    requires
        0 <= i < files.len(),
    ensures
        exists|k: int|
            0 <= k < without_repeats(files).len() && (#[trigger] without_repeats(files)[k]).offset
                == files[i].offset && without_repeats(files)[k].signature.extension@
                == files[i].signature.extension@,
{
    law_repeats_lose_nothing(files, i);
    let k = choose|k: int|
        0 <= k < without_repeats(files).len() && same_find(
            #[trigger] without_repeats(files)[k],
            files[i],
        );
    assert(without_repeats(files)[k].offset == files[i].offset);
}

} // verus!
