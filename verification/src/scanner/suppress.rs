//! Dropping what lies inside another file: thumbnails, icons, frames of a song.

use vstd::prelude::*;

use crate::scanner::buffer;
use crate::scanner::found::FoundFile;
use crate::scanner::order;
use crate::signatures::{self, FileSignature};

verus! {

/// The end of a file of this format follows from its structure and not from a footer of a few
/// bytes, which chance can put anywhere.
pub open spec fn is_strong_container(signature: FileSignature) -> bool {
    ||| buffer::is_zip_ooxml(signature)
    ||| signatures::is_box_format(signature.name@)
    ||| signatures::audio_format(signature.name@) is Some
    ||| signature.size_from_header is Some
}

/// Where a file ends in the source.
pub open spec fn end_of(file: FoundFile) -> int {
    if file.offset + file.size <= u64::MAX { file.offset + file.size } else { u64::MAX as int }
}

/// Keys that put files by offset, and the longer first at the same offset.
pub open spec fn containment_keys(files: Seq<FoundFile>) -> Seq<(u64, u64)> {
    Seq::new(files.len(), |i: int| (files[i].offset, (u64::MAX - files[i].size) as u64))
}

/// The files by offset, and the longer first at the same offset.
pub open spec fn containment_order(files: Seq<FoundFile>) -> Seq<usize> {
    choose|list: Seq<usize>| order::is_order(containment_keys(files), list)
}

/// How far the trusted files reach that were kept so far, and what was dropped.
#[verifier::ext_equal]
pub struct Sweep {
    pub strong_end: int,
    pub any_end: int,
    pub dropped: Set<int>,
}

/// The larger of two numbers.
pub open spec fn larger(a: int, b: int) -> int {
    if a >= b { a } else { b }
}

/// The sweep over the first `n` files in order. A file is dropped where it ends inside a trusted
/// file kept before it: always where the end of that one follows from its structure, else only
/// where this file has no end of its own. Only a file whose end was found is trusted.
pub open spec fn sweep(files: Seq<FoundFile>, list: Seq<usize>, n: int) -> Sweep
    decreases n,
{
    if n <= 0 {
        Sweep { strong_end: 0, any_end: 0, dropped: Set::empty() }
    } else {
        let before = sweep(files, list, n - 1);
        let i = list[n - 1] as int;
        let file = files[i];
        let end = end_of(file);
        if end <= before.strong_end || (end <= before.any_end && !file.footer_found) {
            Sweep { dropped: before.dropped.insert(i), ..before }
        } else if file.footer_found {
            Sweep {
                strong_end: if is_strong_container(file.signature) {
                    larger(before.strong_end, end)
                } else {
                    before.strong_end
                },
                any_end: larger(before.any_end, end),
                dropped: before.dropped,
            }
        } else {
            before
        }
    }
}

/// What is dropped of `files`.
pub open spec fn dropped_of(files: Seq<FoundFile>) -> Set<int> {
    sweep(files, containment_order(files), files.len() as int).dropped
}

/// The first `n` files without the dropped ones, in the order in which they stand.
pub open spec fn kept_of(files: Seq<FoundFile>, dropped: Set<int>, n: int) -> Seq<FoundFile>
    decreases n,
{
    if n <= 0 {
        Seq::empty()
    } else if dropped.contains(n - 1) {
        kept_of(files, dropped, n - 1)
    } else {
        kept_of(files, dropped, n - 1).push(files[n - 1])
    }
}

/// What is left of `files`.
pub open spec fn without_contained(files: Seq<FoundFile>) -> Seq<FoundFile> {
    if files.len() < 2 {
        files
    } else {
        kept_of(files, dropped_of(files), files.len() as int)
    }
}

/// File `j` is kept, trusted, and holds all of file `i`; where `i` has an end of its own, the end
/// of `j` follows from its structure.
pub open spec fn held_by(files: Seq<FoundFile>, dropped: Set<int>, i: int, j: int) -> bool {
    &&& 0 <= j < files.len()
    &&& j != i
    &&& !dropped.contains(j)
    &&& files[j].footer_found
    &&& files[j].offset <= files[i].offset
    &&& end_of(files[i]) <= end_of(files[j])
    &&& files[i].footer_found ==> is_strong_container(files[j].signature)
}

/// Nothing is dropped unless a kept and trusted file holds all of it. A file whose size was only
/// assumed never makes another one disappear.
pub proof fn law_dropped_files_are_held(files: Seq<FoundFile>, i: int)
    requires
        files.len() <= usize::MAX,
        dropped_of(files).contains(i),
        end_of(files[i]) > 0,
    ensures
        0 <= i < files.len(),
        exists|j: int| #[trigger] held_by(files, dropped_of(files), i, j),
{
    order::law_order_exists(containment_keys(files));
    let list = containment_order(files);
    lemma_sweep(files, list, files.len() as int);
    let n = choose|n: int| 0 <= n < files.len() && #[trigger] list[n] == i && dropped_at(files, list, n);
    let before = sweep(files, list, n);
    let end = end_of(files[i]);
    let strong = end <= before.strong_end;
    let m = if strong {
        choose|m: int|
            0 <= m < n && #[trigger] trusted_at(files, list, m) && is_strong_container(
                files[list[m] as int].signature,
            ) && end_of(files[list[m] as int]) == before.strong_end
    } else {
        choose|m: int|
            0 <= m < n && #[trigger] trusted_at(files, list, m) && end_of(files[list[m] as int])
                == before.any_end
    };
    lemma_sweep(files, list, n);
    let j = list[m] as int;
    assert(trusted_at(files, list, m));
    assert(order::comes_before(containment_keys(files), list[m] as int, list[n] as int));
    lemma_kept_stays_kept(files, list, m, files.len() as int);
    assert(held_by(files, dropped_of(files), i, j));
}

/// The file at place `n` of the order is dropped.
spec fn dropped_at(files: Seq<FoundFile>, list: Seq<usize>, n: int) -> bool {
    let before = sweep(files, list, n);
    let file = files[list[n] as int];
    end_of(file) <= before.strong_end || (end_of(file) <= before.any_end && !file.footer_found)
}

/// The file at place `m` of the order is kept and trusted.
spec fn trusted_at(files: Seq<FoundFile>, list: Seq<usize>, m: int) -> bool {
    !dropped_at(files, list, m) && files[list[m] as int].footer_found
}

proof fn lemma_sweep(files: Seq<FoundFile>, list: Seq<usize>, n: int)
    requires
        order::is_order(containment_keys(files), list),
        0 <= n <= files.len(),
    ensures
        ({
            let now = sweep(files, list, n);
            &&& now.strong_end > 0 ==> exists|m: int|
                0 <= m < n && #[trigger] trusted_at(files, list, m) && is_strong_container(
                    files[list[m] as int].signature,
                ) && end_of(files[list[m] as int]) == now.strong_end
            &&& now.any_end > 0 ==> exists|m: int|
                0 <= m < n && #[trigger] trusted_at(files, list, m) && end_of(
                    files[list[m] as int],
                ) == now.any_end
            &&& forall|i: int| #[trigger]
                now.dropped.contains(i) ==> 0 <= i < files.len() && exists|k: int|
                    0 <= k < n && #[trigger] list[k] == i && dropped_at(files, list, k)
        }),
    decreases n,
{
    if n > 0 {
        lemma_sweep(files, list, n - 1);
        let before = sweep(files, list, n - 1);
        let now = sweep(files, list, n);
        let file = files[list[n - 1] as int];
        if dropped_at(files, list, n - 1) {
            assert forall|i: int| #[trigger] now.dropped.contains(i) implies 0 <= i < files.len()
                && exists|k: int| 0 <= k < n && #[trigger] list[k] == i && dropped_at(
                files,
                list,
                k,
            ) by {
                if before.dropped.contains(i) {
                    let k = choose|k: int|
                        0 <= k < n - 1 && #[trigger] list[k] == i && dropped_at(files, list, k);
                    assert(list[k] == i);
                } else {
                    assert(list[n - 1] == i);
                }
            }
        } else if file.footer_found {
            assert(trusted_at(files, list, n - 1));
        }
        if now.strong_end > 0 && now.strong_end == before.strong_end {
            let m = choose|m: int|
                0 <= m < n - 1 && #[trigger] trusted_at(files, list, m) && is_strong_container(
                    files[list[m] as int].signature,
                ) && end_of(files[list[m] as int]) == before.strong_end;
            assert(trusted_at(files, list, m));
        }
        if now.any_end > 0 && now.any_end == before.any_end {
            let m = choose|m: int|
                0 <= m < n - 1 && #[trigger] trusted_at(files, list, m) && end_of(
                    files[list[m] as int],
                ) == before.any_end;
            assert(trusted_at(files, list, m));
        }
    }
}

proof fn lemma_kept_stays_kept(files: Seq<FoundFile>, list: Seq<usize>, m: int, n: int)
    requires
        order::is_order(containment_keys(files), list),
        0 <= m < n <= files.len(),
        !dropped_at(files, list, m),
    ensures
        !sweep(files, list, n).dropped.contains(list[m] as int),
    decreases n,
{
    lemma_sweep(files, list, m);
    if n - 1 == m {
        if sweep(files, list, m).dropped.contains(list[m] as int) {
            let k = choose|k: int|
                0 <= k < m && #[trigger] list[k] == list[m] as int && dropped_at(files, list, k);
            assert(order::comes_before(containment_keys(files), list[k] as int, list[m] as int));
        }
    } else {
        lemma_kept_stays_kept(files, list, m, n - 1);
        assert(order::comes_before(containment_keys(files), list[m] as int, list[n - 1] as int));
    }
}

/// Where no end was found, nothing is dropped.
pub proof fn law_unfinished_files_drop_nothing(files: Seq<FoundFile>)
    requires
        forall|i: int| 0 <= i < files.len() ==> !(#[trigger] files[i]).footer_found && files[i].size > 0,
        files.len() <= usize::MAX,
    ensures
        without_contained(files) == files,
{
    order::law_order_exists(containment_keys(files));
    let list = containment_order(files);
    lemma_sweep_of_unfinished(files, list, files.len() as int);
    lemma_nothing_dropped(files, files.len() as int);
    assert(files.take(files.len() as int) =~= files);
}

proof fn lemma_sweep_of_unfinished(files: Seq<FoundFile>, list: Seq<usize>, n: int)
    requires
        forall|i: int| 0 <= i < files.len() ==> !(#[trigger] files[i]).footer_found && files[i].size > 0,
        order::is_order(containment_keys(files), list),
        0 <= n <= files.len(),
    ensures
        sweep(files, list, n) == (Sweep { strong_end: 0, any_end: 0, dropped: Set::empty() }),
    decreases n,
{
    if n > 0 {
        lemma_sweep_of_unfinished(files, list, n - 1);
        assert(0 <= list[n - 1] < files.len());
    }
}

proof fn lemma_nothing_dropped(files: Seq<FoundFile>, n: int)
    requires
        0 <= n <= files.len(),
    ensures
        kept_of(files, Set::empty(), n) == files.take(n),
    decreases n,
{
    if n > 0 {
        lemma_nothing_dropped(files, n - 1);
        assert(files.take(n - 1).push(files[n - 1]) =~= files.take(n));
    } else {
        assert(files.take(0) =~= Seq::<FoundFile>::empty());
    }
}

/// Dropping twice drops nothing more than dropping once.
pub proof fn law_second_pass_drops_nothing(files: Seq<FoundFile>)
    requires
        files.len() <= usize::MAX,
    ensures
        without_contained(without_contained(files)) == without_contained(files),
{
    let kept = without_contained(files);
    if files.len() >= 2 {
        lemma_kept_places(files, dropped_of(files), files.len() as int);
        if kept.len() >= 2 {
            assert forall|k: int| !#[trigger] dropped_of(kept).contains(k) by {
                lemma_kept_is_not_held(files, k);
            }
            assert(dropped_of(kept) =~= Set::<int>::empty());
            lemma_nothing_dropped(kept, kept.len() as int);
            assert(kept.take(kept.len() as int) =~= kept);
        }
    }
}

/// Dropping leaves no two files alike where no two were.
pub proof fn law_dropping_adds_no_repeats(files: Seq<FoundFile>)
    requires
        buffer::has_no_repeats(files),
    ensures
        buffer::has_no_repeats(without_contained(files)),
{
    if files.len() >= 2 {
        let kept = without_contained(files);
        lemma_kept_places(files, dropped_of(files), files.len() as int);
        let places = kept_places(files, dropped_of(files), files.len() as int);
        assert forall|j: int, k: int| 0 <= j < k < kept.len() implies buffer::key_of(
            #[trigger] kept[j],
        ) != buffer::key_of(#[trigger] kept[k]) by {
            assert(places[j] < places[k]);
            assert(buffer::key_of(files[places[j]]) != buffer::key_of(files[places[k]]));
        }
    }
}

/// Something is left of any files.
pub proof fn law_something_is_left(files: Seq<FoundFile>)
    requires
        0 < files.len() <= usize::MAX,
        forall|i: int| 0 <= i < files.len() ==> (#[trigger] files[i]).size > 0,
    ensures
        without_contained(files).len() > 0,
{
    if files.len() >= 2 {
        order::law_order_exists(containment_keys(files));
        let list = containment_order(files);
        let first = list[0] as int;
        assert(sweep(files, list, 0).strong_end == 0);
        assert(!dropped_at(files, list, 0));
        lemma_kept_stays_kept(files, list, 0, files.len() as int);
        lemma_kept_is_listed(files, dropped_of(files), files.len() as int, first);
    }
}

/// The places of the first `n` files that are kept.
spec fn kept_places(files: Seq<FoundFile>, dropped: Set<int>, n: int) -> Seq<int>
    decreases n,
{
    if n <= 0 {
        Seq::empty()
    } else if dropped.contains(n - 1) {
        kept_places(files, dropped, n - 1)
    } else {
        kept_places(files, dropped, n - 1).push(n - 1)
    }
}

proof fn lemma_kept_places(files: Seq<FoundFile>, dropped: Set<int>, n: int)
    requires
        0 <= n <= files.len(),
    ensures
        ({
            let places = kept_places(files, dropped, n);
            let kept = kept_of(files, dropped, n);
            &&& places.len() == kept.len() <= n
            &&& forall|k: int|
                0 <= k < places.len() ==> {
                    &&& 0 <= #[trigger] places[k] < n
                    &&& !dropped.contains(places[k])
                    &&& kept[k] == files[places[k]]
                }
            &&& forall|j: int, k: int|
                0 <= j < k < places.len() ==> #[trigger] places[j] < #[trigger] places[k]
        }),
    decreases n,
{
    if n > 0 {
        lemma_kept_places(files, dropped, n - 1);
    }
}

proof fn lemma_kept_is_listed(files: Seq<FoundFile>, dropped: Set<int>, n: int, i: int)
    requires
        0 <= i < n <= files.len(),
        !dropped.contains(i),
    ensures
        kept_of(files, dropped, n).len() > 0,
    decreases n,
{
    if i < n - 1 {
        lemma_kept_is_listed(files, dropped, n - 1, i);
    }
}

/// The sweep never shrinks what the trusted files cover, and a trusted file is covered behind it.
proof fn lemma_sweep_covers(files: Seq<FoundFile>, list: Seq<usize>, m: int, n: int)
    requires
        0 <= m <= n,
    ensures
        sweep(files, list, m).strong_end <= sweep(files, list, n).strong_end,
        sweep(files, list, m).any_end <= sweep(files, list, n).any_end,
        m < n && trusted_at(files, list, m) ==> {
            let end = end_of(files[list[m] as int]);
            &&& end <= sweep(files, list, n).any_end
            &&& is_strong_container(files[list[m] as int].signature) ==> end <= sweep(
                files,
                list,
                n,
            ).strong_end
        },
    decreases n - m,
{
    if m < n {
        lemma_sweep_covers(files, list, m + 1, n);
    }
}

/// What is dropped at place `n` of the order stays dropped.
proof fn lemma_dropped_in_the_end(files: Seq<FoundFile>, list: Seq<usize>, n: int, upto: int)
    requires
        0 <= n < upto <= files.len(),
        dropped_at(files, list, n),
    ensures
        sweep(files, list, upto).dropped.contains(list[n] as int),
    decreases upto,
{
    if n < upto - 1 {
        lemma_dropped_in_the_end(files, list, n, upto - 1);
    }
}

/// What is kept of `files` is not dropped by a second pass.
proof fn lemma_kept_is_not_held(files: Seq<FoundFile>, k: int)
    requires
        2 <= files.len() <= usize::MAX,
        without_contained(files).len() >= 2,
    ensures
        !dropped_of(without_contained(files)).contains(k),
{
    let kept = without_contained(files);
    let dropped = dropped_of(files);
    let count = files.len() as int;
    order::law_order_exists(containment_keys(files));
    let list = containment_order(files);
    lemma_kept_places(files, dropped, count);
    let places = kept_places(files, dropped, count);
    order::law_order_exists(containment_keys(kept));
    let inner = containment_order(kept);
    lemma_sweep(kept, inner, kept.len() as int);
    if dropped_of(kept).contains(k) {
        let n = choose|n: int|
            0 <= n < kept.len() && #[trigger] inner[n] == k && dropped_at(kept, inner, n);
        let end = end_of(kept[k]);
        // The place of the file in the order of all files.
        let x = places[k];
        assert(list.contains(x as usize));
        let at = choose|at: int| 0 <= at < list.len() && list[at] == x as usize;
        if dropped_at(files, list, at) {
            lemma_dropped_in_the_end(files, list, at, count);
        }
        assert(!dropped_at(files, list, at));
        lemma_sweep_covers(files, list, 0, at);
        assert(end > 0);
        // The trusted file before it in the second pass that holds it.
        let before = sweep(kept, inner, n);
        lemma_sweep(kept, inner, n);
        let strong = end <= before.strong_end;
        let m = if strong {
            choose|m: int|
                0 <= m < n && #[trigger] trusted_at(kept, inner, m) && is_strong_container(
                    kept[inner[m] as int].signature,
                ) && end_of(kept[inner[m] as int]) == before.strong_end
        } else {
            choose|m: int|
                0 <= m < n && #[trigger] trusted_at(kept, inner, m) && end_of(kept[inner[m] as int])
                    == before.any_end
        };
        assert(trusted_at(kept, inner, m));
        let j = inner[m] as int;
        assert(order::comes_before(containment_keys(kept), inner[m] as int, inner[n] as int));
        // That file comes before it in the order of all files too, and is kept and trusted there.
        let y = places[j];
        assert(list.contains(y as usize));
        let by = choose|by: int| 0 <= by < list.len() && list[by] == y as usize;
        if j < k {
            assert(places[j] < places[k]);
        } else if k < j {
            assert(places[k] < places[j]);
        }
        assert(order::comes_before(containment_keys(files), y, x));
        if at < by {
            assert(order::comes_before(containment_keys(files), list[at] as int, list[by] as int));
        }
        assert(by < at);
        if dropped_at(files, list, by) {
            lemma_dropped_in_the_end(files, list, by, count);
        }
        assert(trusted_at(files, list, by));
        lemma_sweep_covers(files, list, by, at);
    }
}

/// The end of a file of this format was found by its structure: the record at the end of a package,
/// a chain of boxes, a chain of frames, or a size field. A footer is none of these.
pub open spec fn ends_by_structure(signature: FileSignature) -> bool {
    ||| signature.header@ == seq![0x50u8, 0x4Bu8, 0x03u8, 0x04u8]
    ||| signature.name@ == "MP4/M4V"@ || signature.name@ == "HEIC/HEIF"@ || signature.name@ == "3GP"@
        || signature.name@ == "M4A"@
    ||| signature.name@ == "MP3 (ID3)"@ || signature.name@ == "MP3 (Sync)"@ || signature.name@
        == "AAC"@
    ||| signature.size_from_header is Some
}

/// All of `inner` lies inside `outer`, and they are not the same stretch.
pub open spec fn lies_inside(inner: FoundFile, outer: FoundFile) -> bool {
    &&& outer.offset <= inner.offset
    &&& inner.offset + inner.size <= outer.offset + outer.size
    &&& outer.offset != inner.offset || outer.size != inner.size
}

/// What is held is dropped. Where a file of the result ends by its structure, nothing else of the
/// result lies inside it; where it ends with a footer, nothing lies inside it that has no end of its
/// own.
pub proof fn law_nothing_held_is_left(files: Seq<FoundFile>, p: int, q: int)
    requires
        files.len() <= usize::MAX,
        0 <= p < without_contained(files).len(),
        0 <= q < without_contained(files).len(),
        ({
            let (outer, inner) = (without_contained(files)[p], without_contained(files)[q]);
            &&& outer.footer_found
            &&& outer.offset + outer.size <= u64::MAX
            &&& ends_by_structure(outer.signature) || !inner.footer_found
        }),
    ensures
        !lies_inside(without_contained(files)[q], without_contained(files)[p]),
{
    let kept = without_contained(files);
    if lies_inside(kept[q], kept[p]) {
        assert(p != q);
        assert(files.len() >= 2) by {
            if files.len() < 2 {
                assert(kept == files);
            }
        }
        let dropped = dropped_of(files);
        let count = files.len() as int;
        lemma_kept_places(files, dropped, count);
        let places = kept_places(files, dropped, count);
        let (j, i) = (places[p], places[q]);
        assert(files[j].signature == kept[p].signature);
        lemma_held_is_dropped(files, i, j);
    }
}

proof fn lemma_held_is_dropped(files: Seq<FoundFile>, i: int, j: int)
    requires
        files.len() <= usize::MAX,
        0 <= i < files.len(),
        0 <= j < files.len(),
        !dropped_of(files).contains(j),
        files[j].footer_found,
        files[j].offset + files[j].size <= u64::MAX,
        ends_by_structure(files[j].signature) || !files[i].footer_found,
        lies_inside(files[i], files[j]),
    ensures
        dropped_of(files).contains(i),
{
    let keys = containment_keys(files);
    let count = files.len() as int;
    order::law_order_exists(keys);
    let list = containment_order(files);
    assert(list.contains(i as usize) && list.contains(j as usize));
    let at = choose|at: int| 0 <= at < list.len() && list[at] == i as usize;
    let by = choose|by: int| 0 <= by < list.len() && list[by] == j as usize;
    assert(order::comes_before(keys, j, i));
    if at < by {
        assert(order::comes_before(keys, list[at] as int, list[by] as int));
    }
    assert(by < at);
    if dropped_at(files, list, by) {
        lemma_dropped_in_the_end(files, list, by, count);
    }
    assert(trusted_at(files, list, by));
    lemma_sweep_covers(files, list, by, at);
    if ends_by_structure(files[j].signature) {
        assert(is_strong_container(files[j].signature));
    }
    assert(dropped_at(files, list, at));
    lemma_dropped_in_the_end(files, list, at, count);
}

/// Nothing else is dropped: a file that is missing from the result lies inside one of the result
/// whose end was found, and a file with an end of its own inside one that ends by its structure.
pub proof fn law_only_held_files_are_missing(files: Seq<FoundFile>, i: int)
    requires
        files.len() <= usize::MAX,
        0 <= i < files.len(),
        files[i].size > 0,
        !without_contained(files).contains(files[i]),
    ensures
        exists|j: int|
            0 <= j < without_contained(files).len() && {
                let outer = #[trigger] without_contained(files)[j];
                &&& outer.footer_found
                &&& outer.offset <= files[i].offset
                &&& end_of(files[i]) <= end_of(outer)
                &&& files[i].footer_found ==> ends_by_structure(outer.signature)
            },
{
    let kept = without_contained(files);
    let count = files.len() as int;
    assert(files.len() >= 2) by {
        if files.len() < 2 {
            assert(kept[i] == files[i]);
        }
    }
    let dropped = dropped_of(files);
    if !dropped.contains(i) {
        lemma_kept_has(files, dropped, count, i);
    }
    law_dropped_files_are_held(files, i);
    let j = choose|j: int| #[trigger] held_by(files, dropped, i, j);
    lemma_kept_has(files, dropped, count, j);
    let k = choose|k: int| 0 <= k < kept.len() && kept[k] == files[j];
    assert(kept[k].footer_found);
    if is_strong_container(files[j].signature) {
        lemma_strong_is_structure(files[j].signature);
    }
}

proof fn lemma_strong_is_structure(signature: FileSignature)
    ensures
        is_strong_container(signature) == ends_by_structure(signature),
{
}

proof fn lemma_kept_has(files: Seq<FoundFile>, dropped: Set<int>, n: int, i: int)
    requires
        0 <= i < n <= files.len(),
        !dropped.contains(i),
    ensures
        kept_of(files, dropped, n).contains(files[i]),
    decreases n,
{
    let before = kept_of(files, dropped, n - 1);
    let now = kept_of(files, dropped, n);
    if i < n - 1 {
        lemma_kept_has(files, dropped, n - 1, i);
        let k = choose|k: int| 0 <= k < before.len() && before[k] == files[i];
        assert(now[k] == files[i]);
    } else {
        assert(now[before.len() as int] == files[i]);
    }
}

/// The result is made of the files, in their order.
pub proof fn law_the_result_keeps_the_order(files: Seq<FoundFile>, p: int, q: int)
    requires
        0 <= p < q < without_contained(files).len(),
    ensures
        exists|i: int, j: int|
            0 <= i < j < files.len() && #[trigger] files[i] == without_contained(files)[p]
                && #[trigger] files[j] == without_contained(files)[q],
{
    let kept = without_contained(files);
    if files.len() >= 2 {
        lemma_kept_places(files, dropped_of(files), files.len() as int);
        let places = kept_places(files, dropped_of(files), files.len() as int);
        assert(files[places[p]] == kept[p] && files[places[q]] == kept[q]);
    } else {
        assert(files[p] == kept[p] && files[q] == kept[q]);
    }
}

/// Whether the end of a file of this format follows from its structure.
pub fn is_strong(signature: &FileSignature) -> (yes: bool)
    ensures
        yes == is_strong_container(*signature),
{
    buffer::signature_is_zip_ooxml(signature) || signature.is_isobmff()
        || signature.audio_stream().is_some() || signature.size_from_header.is_some()
}

/// Drops the files that lie inside another one whose end was found.
pub fn suppress_contained(found_files: &mut Vec<FoundFile>)
    ensures
        final(found_files)@ == without_contained(old(found_files)@),
{
    if found_files.len() < 2 {
        return ;
    }
    let ghost files = found_files@;
    let count: usize = found_files.len();
    let mut keys: Vec<(u64, u64)> = Vec::new();
    let mut i: usize = 0;
    while i < count
        invariant
            i <= count,
            count == files.len(),
            found_files@ == files,
            keys@ =~= containment_keys(files).take(i as int),
        decreases count - i,
    {
        let file = found_files[i];
        keys.push((file.offset, u64::MAX - file.size));
        i = i + 1;
    }
    assert(keys@ =~= containment_keys(files));
    let list = order::stable_order(&keys);
    proof {
        order::law_order_is_unique(containment_keys(files), list@, containment_order(files));
    }
    let mut flags: Vec<bool> = Vec::new();
    let mut i: usize = 0;
    while i < count
        invariant
            i <= count,
            flags@.len() == i,
            forall|k: int| 0 <= k < i ==> !#[trigger] flags@[k],
        decreases count - i,
    {
        flags.push(false);
        i = i + 1;
    }
    let mut strong_end: u64 = 0;
    let mut any_end: u64 = 0;
    let mut n: usize = 0;
    while n < count
        invariant
            n <= count,
            count == files.len(),
            found_files@ == files,
            flags@.len() == count,
            order::is_order(containment_keys(files), list@),
            strong_end == sweep(files, list@, n as int).strong_end,
            any_end == sweep(files, list@, n as int).any_end,
            forall|k: int|
                0 <= k < count ==> #[trigger] flags@[k] == sweep(
                    files,
                    list@,
                    n as int,
                ).dropped.contains(k),
        decreases count - n,
    {
        let at: usize = list[n];
        let file = found_files[at];
        let end: u64 = file.offset.saturating_add(file.size);
        assert(end == end_of(file));
        if end <= strong_end || (end <= any_end && !file.footer_found) {
            flags.set(at, true);
        } else if file.footer_found {
            if end > any_end {
                any_end = end;
            }
            if is_strong(&file.signature) && end > strong_end {
                strong_end = end;
            }
        }
        n = n + 1;
    }
    let mut kept: Vec<FoundFile> = Vec::new();
    let mut i: usize = 0;
    while i < count
        invariant
            i <= count,
            count == files.len(),
            found_files@ == files,
            flags@.len() == count,
            forall|k: int|
                0 <= k < count ==> #[trigger] flags@[k] == dropped_of(files).contains(k),
            kept@ == kept_of(files, dropped_of(files), i as int),
        decreases count - i,
    {
        if !flags[i] {
            kept.push(found_files[i]);
        }
        i = i + 1;
    }
    *found_files = kept;
}

} // verus!
