//! The result of a whole scan, whatever the number of threads.

use vstd::prelude::*;

use crate::scanner::agreement;
use crate::scanner::assemble;
use crate::scanner::buffer;
use crate::scanner::found::FoundFile;
use crate::scanner::order;
use crate::scanner::refine;
use crate::scanner::run;
use crate::scanner::segment_scan::SegmentResult;
use crate::scanner::suppress;
use crate::signatures::{FileCategory, FileSignature};

verus! {

/// The finds once their ends were settled.
pub open spec fn settled_files(source: Seq<u8>, files: Seq<FoundFile>) -> Seq<FoundFile> {
    Seq::new(files.len(), |k: int| agreement::settled(source, files[k]))
}

/// The files without their numbers.
pub open spec fn unnumbered(files: Seq<FoundFile>) -> Seq<FoundFile> {
    Seq::new(files.len(), |k: int| FoundFile { index: 0, ..files[k] })
}

/// The files of the result of a scan of plain formats.
pub open spec fn result_files(
    source: Seq<u8>,
    num_threads: int,
    parts: Seq<SegmentResult>,
) -> Seq<FoundFile> {
    suppress::without_contained(settled_files(source, run::first_finds(num_threads, parts)))
}

/// The formats are plain and in reach, and no two of them open at the same place.
pub open spec fn is_all_tellable(
    source: Seq<u8>,
    list: Seq<FileSignature>,
    reach: int,
) -> bool {
    &&& forall|t: int|
        0 <= t < list.len() ==> agreement::is_tellable(
            source,
            list,
            (#[trigger] list[t]).extension@,
        ) && agreement::is_in_reach(list, list[t].extension@, reach)
    &&& forall|t: int, u: int, offset: int|
        0 <= t < list.len() && 0 <= u < list.len() && #[trigger] buffer::opens_at(
            list[t],
            source,
            offset,
        ) && #[trigger] buffer::opens_at(list[u], source, offset) ==> t == u
}

/// No two files start at the same place.
pub open spec fn are_apart(files: Seq<FoundFile>) -> bool {
    forall|j: int, k: int|
        0 <= j < k < files.len() ==> (#[trigger] files[j]).offset != (#[trigger] files[k]).offset
}

/// Every file starts behind the one before it.
pub open spec fn are_rising(files: Seq<FoundFile>) -> bool {
    forall|j: int, k: int|
        0 <= j < k < files.len() ==> (#[trigger] files[j]).offset < (#[trigger] files[k]).offset
}

/// The same files, perhaps in another order.
pub open spec fn have_same_files(one: Seq<FoundFile>, other: Seq<FoundFile>) -> bool {
    forall|file: FoundFile|
        #![trigger one.contains(file)]
        #![trigger other.contains(file)]
        one.contains(file) == other.contains(file)
}

/// The pass over the audio finds leaves a find of a plain format as it is.
pub proof fn law_audio_pass_leaves_plain_finds(file: FoundFile, settled_to: int)
    requires
        agreement::is_plain(file.signature),
    ensures
        refine::audio_turn(file, settled_to) == (file, settled_to, false),
{
}

/// The result of a scan does not depend on the number of threads: by offset, it has the same files
/// with the same sizes, and as many of each category. It holds of plain formats of which no two
/// open at the same place.
pub proof fn law_result_does_not_depend_on_the_threads(
    source: Seq<u8>,
    list: Seq<FileSignature>,
    reach: int,
    one: int,
    one_parts: Seq<SegmentResult>,
    other: int,
    other_parts: Seq<SegmentResult>,
)
    requires
        source.len() <= u64::MAX,
        0 <= reach,
        is_all_tellable(source, list, reach),
        agreement::are_scans(
            source,
            list,
            reach,
            run::planned(source.len() as int, one, reach),
            one_parts,
        ),
        agreement::are_scans(
            source,
            list,
            reach,
            run::planned(source.len() as int, other, reach),
            other_parts,
        ),
        assemble::joined(one_parts, one_parts.len() as int).len() <= usize::MAX,
        assemble::joined(other_parts, other_parts.len() as int).len() <= usize::MAX,
    ensures
        ({
            let a = result_files(source, one, one_parts);
            let b = result_files(source, other, other_parts);
            &&& a.len() == b.len()
            &&& unnumbered(assemble::by_offset(a)) == unnumbered(assemble::by_offset(b))
            &&& forall|category: FileCategory| #[trigger]
                assemble::count_of(a, category) == assemble::count_of(b, category)
        }),
{
    let x = settled_files(source, run::first_finds(one, one_parts));
    let y = settled_files(source, run::first_finds(other, other_parts));
    lemma_finds_are_apart(source, list, reach, one, one_parts);
    lemma_finds_are_apart(source, list, reach, other, other_parts);
    assert forall|file: FoundFile| #[trigger] unnumbered(x).contains(file)
        == #[trigger] unnumbered(y).contains(file) by {
        if unnumbered(x).contains(file) {
            lemma_finds_are_shared(source, list, reach, one, one_parts, other, other_parts, file);
        }
        if unnumbered(y).contains(file) {
            lemma_finds_are_shared(source, list, reach, other, other_parts, one, one_parts, file);
        }
    }
    lemma_same_files_same_result(x, y);
}

proof fn lemma_finds_are_apart(
    source: Seq<u8>,
    list: Seq<FileSignature>,
    reach: int,
    num_threads: int,
    parts: Seq<SegmentResult>,
)
    requires
        source.len() <= u64::MAX,
        0 <= reach,
        is_all_tellable(source, list, reach),
        agreement::are_scans(
            source,
            list,
            reach,
            run::planned(source.len() as int, num_threads, reach),
            parts,
        ),
        assemble::joined(parts, parts.len() as int).len() <= usize::MAX,
    ensures
        ({
            let files = run::first_finds(num_threads, parts);
            &&& files.len() <= usize::MAX
            &&& are_apart(settled_files(source, files))
            &&& forall|k: int|
                0 <= k < files.len() ==> agreement::is_right(source, list, #[trigger] files[k])
        }),
{
    let all = assemble::joined(parts, parts.len() as int);
    let files = run::first_finds(num_threads, parts);
    if list.len() == 0 {
        agreement::lemma_reports(source, list, reach, num_threads, parts, Seq::empty());
        if all.len() > 0 {
            assert(list.contains(all[0].signature));
        }
    } else {
        agreement::lemma_reports(source, list, reach, num_threads, parts, list[0].extension@);
    }
    agreement::lemma_first_finds(num_threads, parts);
    if num_threads > 1 {
        assemble::law_merging_adds_no_repeats(all);
    }
    assert(buffer::has_no_repeats(files));
    assert forall|k: int| 0 <= k < files.len() implies agreement::is_right(
        source,
        list,
        #[trigger] files[k],
    ) by {
        assert(agreement::has_twin(all, files[k]));
        let p = choose|p: int|
            0 <= p < all.len() && agreement::same_but_number(#[trigger] all[p], files[k]);
        let t = choose|t: int| 0 <= t < list.len() && list[t] == all[p].signature;
        agreement::lemma_reports(source, list, reach, num_threads, parts, list[t].extension@);
        assert(agreement::is_right(source, list, all[p]));
        agreement::lemma_numbers_do_not_matter(source, all[p], files[k]);
    }
    let ready = settled_files(source, files);
    assert forall|j: int, k: int| 0 <= j < k < ready.len() implies (
    #[trigger] ready[j]).offset != (#[trigger] ready[k]).offset by {
        assert(buffer::key_of(files[j]) != buffer::key_of(files[k]));
        assert(agreement::is_right(source, list, files[j]));
        assert(agreement::is_right(source, list, files[k]));
        let t = choose|t: int| 0 <= t < list.len() && list[t] == files[j].signature;
        let u = choose|u: int| 0 <= u < list.len() && list[u] == files[k].signature;
        assert(buffer::opens_at(list[t], source, files[j].offset as int));
        assert(buffer::opens_at(list[u], source, files[k].offset as int));
    }
}

proof fn lemma_finds_are_shared(
    source: Seq<u8>,
    list: Seq<FileSignature>,
    reach: int,
    one: int,
    one_parts: Seq<SegmentResult>,
    other: int,
    other_parts: Seq<SegmentResult>,
    file: FoundFile,
)
    requires
        source.len() <= u64::MAX,
        0 <= reach,
        is_all_tellable(source, list, reach),
        agreement::are_scans(
            source,
            list,
            reach,
            run::planned(source.len() as int, one, reach),
            one_parts,
        ),
        agreement::are_scans(
            source,
            list,
            reach,
            run::planned(source.len() as int, other, reach),
            other_parts,
        ),
        assemble::joined(one_parts, one_parts.len() as int).len() <= usize::MAX,
        assemble::joined(other_parts, other_parts.len() as int).len() <= usize::MAX,
        unnumbered(settled_files(source, run::first_finds(one, one_parts))).contains(file),
    ensures
        unnumbered(settled_files(source, run::first_finds(other, other_parts))).contains(file),
{
    let x = run::first_finds(one, one_parts);
    let y = run::first_finds(other, other_parts);
    let here = unnumbered(settled_files(source, x));
    let there = unnumbered(settled_files(source, y));
    let k = choose|k: int| 0 <= k < here.len() && here[k] == file;
    lemma_finds_are_apart(source, list, reach, one, one_parts);
    assert(agreement::is_right(source, list, x[k]));
    assert(agreement::outcome(source, x[k]) == file);
    let t = choose|t: int| 0 <= t < list.len() && list[t] == x[k].signature;
    assert(agreement::is_tellable(source, list, list[t].extension@));
    agreement::law_threads_find_the_same(
        source,
        list,
        reach,
        one,
        one_parts,
        other,
        other_parts,
        file,
    );
    let q = choose|q: int|
        0 <= q < y.len() && agreement::outcome(source, #[trigger] y[q]) == file;
    assert(there[q] == file);
}

/// Files that differ in order and numbers at most lead to the same result.
proof fn lemma_same_files_same_result(x: Seq<FoundFile>, y: Seq<FoundFile>)
    requires
        x.len() <= usize::MAX,
        y.len() <= usize::MAX,
        are_apart(x),
        are_apart(y),
        have_same_files(unnumbered(x), unnumbered(y)),
    ensures
        ({
            let a = suppress::without_contained(x);
            let b = suppress::without_contained(y);
            &&& a.len() == b.len()
            &&& unnumbered(assemble::by_offset(a)) == unnumbered(assemble::by_offset(b))
            &&& forall|category: FileCategory| #[trigger]
                assemble::count_of(a, category) == assemble::count_of(b, category)
        }),
{
    let (u, v) = (unnumbered(x), unnumbered(y));
    let (a, b) = (suppress::without_contained(x), suppress::without_contained(y));
    lemma_apart_without_numbers(x);
    lemma_apart_without_numbers(y);
    lemma_by_offset_rises(u);
    lemma_by_offset_rises(v);
    lemma_rising_is_unique(assemble::by_offset(u), assemble::by_offset(v));
    lemma_kept_in_order(u);
    lemma_kept_in_order(v);
    let (c, d) = (suppress::without_contained(u), suppress::without_contained(v));
    assert(have_same_files(c, d));
    lemma_by_offset_rises(c);
    lemma_by_offset_rises(d);
    lemma_rising_is_unique(assemble::by_offset(c), assemble::by_offset(d));
    lemma_numbers_are_not_read(x);
    lemma_numbers_are_not_read(y);
    assert(c == unnumbered(a) && d == unnumbered(b));
    lemma_order_without_numbers(a);
    lemma_order_without_numbers(b);
    assert forall|category: FileCategory| #[trigger] assemble::count_of(a, category)
        == assemble::count_of(b, category) by {
        lemma_same_files_same_count(c, d, category);
        lemma_count_without_numbers(a, category);
        lemma_count_without_numbers(b, category);
    }
}

proof fn lemma_apart_without_numbers(files: Seq<FoundFile>)
    requires
        are_apart(files),
    ensures
        are_apart(unnumbered(files)),
{
    let plain = unnumbered(files);
    assert forall|j: int, k: int| 0 <= j < k < plain.len() implies (#[trigger] plain[j]).offset != (
    #[trigger] plain[k]).offset by {
        assert(files[j].offset != files[k].offset);
    }
}

/// In order of their offsets, files that are apart rise, and they are the same files.
proof fn lemma_by_offset_rises(files: Seq<FoundFile>)
    requires
        files.len() <= usize::MAX,
        are_apart(files),
    ensures
        are_rising(assemble::by_offset(files)),
        have_same_files(assemble::by_offset(files), files),
        assemble::by_offset(files).len() == files.len(),
{
    let keys = refine::offset_keys(files);
    order::law_order_exists(keys);
    let list = choose|list: Seq<usize>| order::is_order(refine::offset_keys(files), list);
    let sorted = assemble::by_offset(files);
    assert forall|file: FoundFile| #[trigger] sorted.contains(file) == #[trigger] files.contains(
        file,
    ) by {
        assemble::law_ordering_keeps_every_file(files, file);
    }
    assert forall|j: int, k: int| 0 <= j < k < sorted.len() implies (#[trigger] sorted[j]).offset < (
    #[trigger] sorted[k]).offset by {
        assert(order::comes_before(keys, list[j] as int, list[k] as int));
        let (p, q) = (list[j] as int, list[k] as int);
        if p < q {
            assert(files[p].offset != files[q].offset);
        } else {
            assert(files[q].offset != files[p].offset);
        }
    }
}

/// There is one way only to put the same files so that they rise.
proof fn lemma_rising_is_unique(one: Seq<FoundFile>, other: Seq<FoundFile>)
    requires
        are_rising(one),
        are_rising(other),
        have_same_files(one, other),
    ensures
        one == other,
    decreases one.len(),
{
    if one.len() == 0 {
        if other.len() > 0 {
            assert(other.contains(other[0]));
            assert(one.contains(other[0]));
        }
        assert(one =~= other);
    } else {
        let n = one.len() - 1;
        assert(one.contains(one[n]));
        let j = choose|j: int| 0 <= j < other.len() && other[j] == one[n];
        let m = other.len() - 1;
        assert(other.contains(other[m]));
        let i = choose|i: int| 0 <= i < one.len() && one[i] == other[m];
        assert(j == m) by {
            if j < m {
                assert(other[j].offset < other[m].offset);
                if i < n {
                    assert(one[i].offset < one[n].offset);
                }
            }
        }
        let (a, b) = (one.drop_last(), other.drop_last());
        assert forall|file: FoundFile| #[trigger] a.contains(file) == #[trigger] b.contains(file) by {
            if a.contains(file) {
                let p = choose|p: int| 0 <= p < a.len() && a[p] == file;
                assert(one[p] == file && one[p].offset < one[n].offset);
                assert(one.contains(file) && other.contains(file));
                let q = choose|q: int| 0 <= q < other.len() && other[q] == file;
                assert(q < m);
                assert(b[q] == file);
            }
            if b.contains(file) {
                let p = choose|p: int| 0 <= p < b.len() && b[p] == file;
                assert(other[p] == file && other[p].offset < other[m].offset);
                assert(other.contains(file) && one.contains(file));
                let q = choose|q: int| 0 <= q < one.len() && one[q] == file;
                assert(q < n);
                assert(a[q] == file);
            }
        }
        lemma_rising_is_unique(a, b);
        assert(one =~= a.push(one[n]));
        assert(other =~= b.push(other[m]));
    }
}

/// What is kept of files that are apart does not depend on their order.
proof fn lemma_kept_in_order(files: Seq<FoundFile>)
    requires
        files.len() <= usize::MAX,
        are_apart(files),
    ensures
        have_same_files(
            suppress::without_contained(files),
            suppress::without_contained(assemble::by_offset(files)),
        ),
        are_apart(suppress::without_contained(files)),
        suppress::without_contained(files).len() <= files.len(),
{
    let sorted = assemble::by_offset(files);
    let keys = refine::offset_keys(files);
    order::law_order_exists(keys);
    let list = choose|list: Seq<usize>| order::is_order(refine::offset_keys(files), list);
    lemma_by_offset_rises(files);
    let kept = suppress::without_contained(files);
    if files.len() >= 2 {
        let n = files.len() as int;
        let straight = Seq::new(files.len(), |k: int| k as usize);
        lemma_containment_order(files, list);
        assert(order::is_order(suppress::containment_keys(sorted), straight)) by {
            assert forall|p: int| 0 <= p < n implies #[trigger] straight.contains(p as usize) by {
                assert(straight[p] == p as usize);
            }
        }
        order::law_order_exists(suppress::containment_keys(sorted));
        order::law_order_is_unique(
            suppress::containment_keys(sorted),
            straight,
            suppress::containment_order(sorted),
        );
        lemma_sweeps_agree(files, sorted, list, straight, n);
        let dropped = suppress::dropped_of(files);
        let other = suppress::dropped_of(sorted);
        let there = suppress::without_contained(sorted);
        assert forall|file: FoundFile| #[trigger] kept.contains(file) == #[trigger] there.contains(
            file,
        ) by {
            lemma_kept_contains(files, dropped, n, file);
            lemma_kept_contains(sorted, other, n, file);
            if kept.contains(file) {
                let p = choose|p: int| 0 <= p < n && !dropped.contains(p) && #[trigger] files[p] == file;
                assert(list.contains(p as usize));
                let k = choose|k: int| 0 <= k < list.len() && list[k] == p as usize;
                assert(sorted[k] == file && !other.contains(k));
            }
            if there.contains(file) {
                let k = choose|k: int| 0 <= k < n && !other.contains(k) && #[trigger] sorted[k] == file;
                assert(files[list[k] as int] == file && !dropped.contains(list[k] as int));
            }
        }
        lemma_kept_is_apart(files, dropped, n);
    }
}

/// Files that are apart stand in the same order by offset as by what can hold what.
proof fn lemma_containment_order(files: Seq<FoundFile>, list: Seq<usize>)
    requires
        files.len() <= usize::MAX,
        are_apart(files),
        order::is_order(refine::offset_keys(files), list),
    ensures
        suppress::containment_order(files) == list,
{
    let keys = suppress::containment_keys(files);
    assert forall|i: int, j: int| 0 <= i < j < list.len() implies order::comes_before(
        keys,
        #[trigger] list[i] as int,
        #[trigger] list[j] as int,
    ) by {
        let (p, q) = (list[i] as int, list[j] as int);
        assert(order::comes_before(refine::offset_keys(files), p, q));
        if p < q {
            assert(files[p].offset != files[q].offset);
        } else {
            assert(files[q].offset != files[p].offset);
        }
    }
    assert(order::is_order(keys, list));
    order::law_order_is_unique(keys, list, suppress::containment_order(files));
}

proof fn lemma_sweeps_agree(
    files: Seq<FoundFile>,
    sorted: Seq<FoundFile>,
    list: Seq<usize>,
    straight: Seq<usize>,
    n: int,
)
    requires
        files.len() <= usize::MAX,
        order::is_order(refine::offset_keys(files), list),
        sorted.len() == files.len(),
        forall|k: int| 0 <= k < files.len() ==> #[trigger] sorted[k] == files[list[k] as int],
        straight == Seq::new(files.len(), |k: int| k as usize),
        0 <= n <= files.len(),
    ensures
        ({
            let here = suppress::sweep(files, list, n);
            let there = suppress::sweep(sorted, straight, n);
            &&& here.strong_end == there.strong_end
            &&& here.any_end == there.any_end
            &&& forall|k: int|
                0 <= k < files.len() ==> here.dropped.contains(#[trigger] list[k] as int)
                    == there.dropped.contains(k)
        }),
    decreases n,
{
    if n > 0 {
        lemma_sweeps_agree(files, sorted, list, straight, n - 1);
        let here = suppress::sweep(files, list, n);
        let there = suppress::sweep(sorted, straight, n);
        assert(sorted[n - 1] == files[list[n - 1] as int]);
        assert(straight[n - 1] == n - 1);
        assert forall|k: int| 0 <= k < files.len() implies here.dropped.contains(
            #[trigger] list[k] as int,
        ) == there.dropped.contains(k) by {
            if k != n - 1 {
                lemma_order_has_no_repeats(refine::offset_keys(files), list, k, n - 1);
            }
        }
    }
}

proof fn lemma_order_has_no_repeats(keys: Seq<(u64, u64)>, list: Seq<usize>, i: int, j: int)
    requires
        order::is_order(keys, list),
        0 <= i < list.len(),
        0 <= j < list.len(),
        i != j,
    ensures
        list[i] != list[j],
{
    if i < j {
        assert(order::comes_before(keys, list[i] as int, list[j] as int));
    } else {
        assert(order::comes_before(keys, list[j] as int, list[i] as int));
    }
}

proof fn lemma_kept_contains(files: Seq<FoundFile>, dropped: Set<int>, n: int, file: FoundFile)
    requires
        0 <= n <= files.len(),
    ensures
        suppress::kept_of(files, dropped, n).contains(file) == exists|p: int|
            0 <= p < n && !dropped.contains(p) && #[trigger] files[p] == file,
    decreases n,
{
    if n > 0 {
        lemma_kept_contains(files, dropped, n - 1, file);
        let before = suppress::kept_of(files, dropped, n - 1);
        let now = suppress::kept_of(files, dropped, n);
        if !dropped.contains(n - 1) {
            assert(now[before.len() as int] == files[n - 1]);
            if now.contains(file) {
                let q = choose|q: int| 0 <= q < now.len() && now[q] == file;
                if q < before.len() {
                    assert(before[q] == file);
                    assert(before.contains(file));
                }
            }
            if before.contains(file) {
                let q = choose|q: int| 0 <= q < before.len() && before[q] == file;
                assert(now[q] == file);
            }
        }
    }
}

proof fn lemma_kept_is_apart(files: Seq<FoundFile>, dropped: Set<int>, n: int)
    requires
        0 <= n <= files.len(),
        are_apart(files),
    ensures
        are_apart(suppress::kept_of(files, dropped, n)),
        suppress::kept_of(files, dropped, n).len() <= n,
    decreases n,
{
    if n > 0 {
        lemma_kept_is_apart(files, dropped, n - 1);
        let before = suppress::kept_of(files, dropped, n - 1);
        let now = suppress::kept_of(files, dropped, n);
        if !dropped.contains(n - 1) {
            assert forall|j: int, k: int| 0 <= j < k < now.len() implies (#[trigger] now[j]).offset
                != (#[trigger] now[k]).offset by {
                if k < before.len() {
                    assert(before[j].offset != before[k].offset);
                } else {
                    assert(before.contains(before[j]));
                    lemma_kept_contains(files, dropped, n - 1, before[j]);
                    let p = choose|p: int|
                        0 <= p < n - 1 && !dropped.contains(p) && #[trigger] files[p] == before[j];
                    assert(files[p].offset != files[n - 1].offset);
                }
            }
        }
    }
}

/// Nothing that is dropped or kept depends on the numbers.
proof fn lemma_numbers_are_not_read(files: Seq<FoundFile>)
    requires
        files.len() <= usize::MAX,
    ensures
        suppress::without_contained(unnumbered(files)) == unnumbered(
            suppress::without_contained(files),
        ),
{
    let plain = unnumbered(files);
    assert(suppress::containment_keys(plain) =~= suppress::containment_keys(files));
    let keys = suppress::containment_keys(files);
    let list = suppress::containment_order(files);
    order::law_order_exists(keys);
    order::law_order_is_unique(keys, list, suppress::containment_order(plain));
    lemma_sweep_without_numbers(files, list, files.len() as int);
    lemma_kept_without_numbers(files, suppress::dropped_of(files), files.len() as int);
}

proof fn lemma_sweep_without_numbers(files: Seq<FoundFile>, list: Seq<usize>, n: int)
    requires
        n <= list.len(),
        forall|k: int| 0 <= k < list.len() ==> #[trigger] list[k] < files.len(),
    ensures
        suppress::sweep(unnumbered(files), list, n) == suppress::sweep(files, list, n),
    decreases n,
{
    if n > 0 {
        lemma_sweep_without_numbers(files, list, n - 1);
        assert(list[n - 1] < files.len());
    }
}

proof fn lemma_kept_without_numbers(files: Seq<FoundFile>, dropped: Set<int>, n: int)
    requires
        n <= files.len(),
    ensures
        suppress::kept_of(unnumbered(files), dropped, n) == unnumbered(
            suppress::kept_of(files, dropped, n),
        ),
    decreases n,
{
    if n > 0 {
        lemma_kept_without_numbers(files, dropped, n - 1);
    }
    assert(suppress::kept_of(unnumbered(files), dropped, n) =~= unnumbered(
        suppress::kept_of(files, dropped, n),
    ));
}

proof fn lemma_order_without_numbers(files: Seq<FoundFile>)
    requires
        files.len() <= usize::MAX,
    ensures
        assemble::by_offset(unnumbered(files)) == unnumbered(assemble::by_offset(files)),
{
    let plain = unnumbered(files);
    let keys = refine::offset_keys(files);
    assert(refine::offset_keys(plain) =~= keys);
    order::law_order_exists(keys);
    let list = choose|list: Seq<usize>| order::is_order(refine::offset_keys(files), list);
    let other = choose|list: Seq<usize>| order::is_order(refine::offset_keys(plain), list);
    order::law_order_is_unique(keys, list, other);
    assert(assemble::by_offset(unnumbered(files)) =~= unnumbered(assemble::by_offset(files)));
}

proof fn lemma_count_without_numbers(files: Seq<FoundFile>, category: FileCategory)
    ensures
        assemble::count_of(unnumbered(files), category) == assemble::count_of(files, category),
    decreases files.len(),
{
    if files.len() > 0 {
        lemma_count_without_numbers(files.drop_last(), category);
        assert(unnumbered(files).drop_last() =~= unnumbered(files.drop_last()));
    }
}

proof fn lemma_count_without_one(files: Seq<FoundFile>, i: int, category: FileCategory)
    requires
        0 <= i < files.len(),
    ensures
        assemble::count_of(files, category) == assemble::count_of(files.remove(i), category) + if files[i].signature.category
            == category {
            1nat
        } else {
            0nat
        },
    decreases files.len(),
{
    let rest = files.remove(i);
    if i == files.len() - 1 {
        assert(rest =~= files.drop_last());
    } else {
        lemma_count_without_one(files.drop_last(), i, category);
        assert(rest.drop_last() =~= files.drop_last().remove(i));
        assert(rest.last() == files.last());
    }
}

/// The same files are as many of each category, in whatever order.
proof fn lemma_same_files_same_count(
    one: Seq<FoundFile>,
    other: Seq<FoundFile>,
    category: FileCategory,
)
    requires
        are_apart(one),
        are_apart(other),
        have_same_files(one, other),
    ensures
        assemble::count_of(one, category) == assemble::count_of(other, category),
    decreases one.len(),
{
    if one.len() == 0 {
        if other.len() > 0 {
            assert(other.contains(other[0]));
            assert(one.contains(other[0]));
        }
    } else {
        let last = one.last();
        assert(one[one.len() - 1] == last);
        assert(one.contains(last));
        let i = choose|i: int| 0 <= i < other.len() && other[i] == last;
        let (a, b) = (one.drop_last(), other.remove(i));
        lemma_count_without_one(other, i, category);
        assert forall|file: FoundFile| #[trigger] a.contains(file) == #[trigger] b.contains(file) by {
            if a.contains(file) {
                let p = choose|p: int| 0 <= p < a.len() && a[p] == file;
                assert(one[p].offset != one[one.len() - 1].offset);
                assert(one.contains(file) && other.contains(file));
                let q = choose|q: int| 0 <= q < other.len() && other[q] == file;
                assert(b[if q < i { q } else { q - 1 }] == file);
            }
            if b.contains(file) {
                let p = choose|p: int| 0 <= p < b.len() && b[p] == file;
                let q = if p < i { p } else { p + 1 };
                assert(other[q] == file);
                assert(other.contains(file) && one.contains(file));
                let r = choose|r: int| 0 <= r < one.len() && one[r] == file;
                assert(file.offset != last.offset) by {
                    if q < i {
                        assert(other[q].offset != other[i].offset);
                    } else {
                        assert(other[i].offset != other[q].offset);
                    }
                }
                assert(a[r] == file);
            }
        }
        assert(are_apart(b)) by {
            assert forall|j: int, k: int| 0 <= j < k < b.len() implies (#[trigger] b[j]).offset != (
            #[trigger] b[k]).offset by {
                let (p, q) = (if j < i { j } else { j + 1 }, if k < i { k } else { k + 1 });
                assert(other[p].offset != other[q].offset);
            }
        }
        assert(are_apart(a)) by {
            assert forall|j: int, k: int| 0 <= j < k < a.len() implies (#[trigger] a[j]).offset != (
            #[trigger] a[k]).offset by {
                assert(one[j].offset != one[k].offset);
            }
        }
        lemma_same_files_same_count(a, b, category);
    }
}

} // verus!
