//! Finding the footer that closes a header, when files of the same format may be nested.
//!
//! A photo often carries a complete thumbnail of its own format. The footer of the thumbnail must
//! not close the photo, and the search must not run past the photo into the next file either.
//! Both follow from one count: a header opens a level, a footer closes one, and the file ends
//! where the count comes down to zero.

use vstd::prelude::*;

use crate::bytes;

verus! {

broadcast use vstd::slice::group_slice_axioms;

/// Depth reached, and position of the footer that brought it to zero, when `data` is read from
/// `at` up to `to` with `depth` levels open. Marks are taken from left to right without overlap,
/// and a footer wins over a header at the same place. A mark that ends at or before `skip_before`
/// was counted earlier, so it is passed over without counting.
pub open spec fn nesting(
    data: Seq<u8>,
    header: Seq<u8>,
    footer: Seq<u8>,
    depth: int,
    skip_before: int,
    at: int,
    to: int,
) -> (int, Option<int>)
    decreases (if at < to { to - at } else { 0 }),
{
    if at >= to || footer.len() == 0 {
        (depth, None)
    } else if bytes::pattern_at(data, at, footer) {
        let past = at + footer.len();
        if past <= skip_before {
            nesting(data, header, footer, depth, skip_before, past, to)
        } else if depth == 1 {
            (0, Some(at))
        } else {
            nesting(data, header, footer, depth - 1, skip_before, past, to)
        }
    } else if header.len() > 0 && bytes::pattern_at(data, at, header) {
        let past = at + header.len();
        let opened = if past <= skip_before { depth } else { depth + 1 };
        nesting(data, header, footer, opened, skip_before, past, to)
    } else {
        nesting(data, header, footer, depth, skip_before, at + 1, to)
    }
}

/// First place where a mark of `header` or `footer` could reach past `start`.
pub open spec fn nesting_margin(header: Seq<u8>, footer: Seq<u8>) -> int {
    let longest = if header.len() >= footer.len() { header.len() } else { footer.len() };
    if longest == 0 { 0 } else { longest - 1 }
}

/// Where the file whose header ends at `start` closes, if it does so before `limit`.
pub open spec fn closing_footer(
    data: Seq<u8>,
    header: Seq<u8>,
    footer: Seq<u8>,
    start: int,
    limit: int,
) -> Option<int> {
    let margin = nesting_margin(header, footer);
    let from = if start >= margin { start - margin } else { 0 };
    let to = if limit <= data.len() { limit } else { data.len() as int };
    nesting(data, header, footer, 1, start, from, to).1
}

/// The count stays positive until the file closes, grows by one per header at most, and a header
/// is counted only where it adds bytes that were not counted before.
pub proof fn law_nesting_depth(
    data: Seq<u8>,
    header: Seq<u8>,
    footer: Seq<u8>,
    depth: int,
    skip_before: int,
    at: int,
    to: int,
)
    requires
        depth >= 1,
        0 <= at,
        to <= data.len(),
        skip_before <= data.len(),
    ensures
        ({
            let (reached, close) = nesting(data, header, footer, depth, skip_before, at, to);
            let fresh = if at <= skip_before { skip_before } else { at };
            &&& close is None ==> 1 <= reached
            &&& close is Some ==> reached == 0
            &&& at <= data.len() ==> reached <= depth + (data.len() - fresh)
        }),
    decreases (if at < to { to - at } else { 0 }),
{
    if at >= to || footer.len() == 0 {
    } else if bytes::pattern_at(data, at, footer) {
        let past = at + footer.len();
        if past <= skip_before {
            law_nesting_depth(data, header, footer, depth, skip_before, past, to);
        } else if depth != 1 {
            law_nesting_depth(data, header, footer, depth - 1, skip_before, past, to);
        }
    } else if header.len() > 0 && bytes::pattern_at(data, at, header) {
        let past = at + header.len();
        let opened = if past <= skip_before { depth } else { depth + 1 };
        law_nesting_depth(data, header, footer, opened, skip_before, past, to);
    } else {
        law_nesting_depth(data, header, footer, depth, skip_before, at + 1, to);
    }
}

/// The position reported really holds the footer, inside the range that was read, and the footer
/// ends after everything that was counted earlier.
pub proof fn law_closing_footer_is_a_footer(
    data: Seq<u8>,
    header: Seq<u8>,
    footer: Seq<u8>,
    depth: int,
    skip_before: int,
    at: int,
    to: int,
)
    ensures
        nesting(data, header, footer, depth, skip_before, at, to).1 matches Some(close) ==> {
            &&& at <= close < to
            &&& bytes::pattern_at(data, close, footer)
            &&& close + footer.len() > skip_before
        },
    decreases (if at < to { to - at } else { 0 }),
{
    if at >= to || footer.len() == 0 {
    } else if bytes::pattern_at(data, at, footer) {
        let past = at + footer.len();
        if past <= skip_before {
            law_closing_footer_is_a_footer(data, header, footer, depth, skip_before, past, to);
        } else if depth != 1 {
            law_closing_footer_is_a_footer(data, header, footer, depth - 1, skip_before, past, to);
        }
    } else if header.len() > 0 && bytes::pattern_at(data, at, header) {
        let past = at + header.len();
        let opened = if past <= skip_before { depth } else { depth + 1 };
        law_closing_footer_is_a_footer(data, header, footer, opened, skip_before, past, to);
    } else {
        law_closing_footer_is_a_footer(data, header, footer, depth, skip_before, at + 1, to);
    }
}

/// With no header and no earlier footer in the way, the first footer closes the file: a second
/// file of the same format further on is never swallowed.
pub proof fn law_first_footer_closes_a_flat_file(
    data: Seq<u8>,
    header: Seq<u8>,
    footer: Seq<u8>,
    skip_before: int,
    at: int,
    to: int,
    close: int,
)
    requires
        0 <= at <= close < to,
        footer.len() > 0,
        bytes::pattern_at(data, close, footer),
        close + footer.len() > skip_before,
        forall|p: int| at <= p < close ==> !#[trigger] bytes::pattern_at(data, p, footer),
        forall|p: int| at <= p < close ==> !#[trigger] bytes::pattern_at(data, p, header),
    ensures
        nesting(data, header, footer, 1, skip_before, at, to) == (0int, Some(close)),
    decreases close - at,
{
    if at < close {
        law_first_footer_closes_a_flat_file(
            data,
            header,
            footer,
            skip_before,
            at + 1,
            to,
            close,
        );
    }
}

/// A complete file nested inside, opened at `inner` and closed at `inner_close`, does not close
/// the file around it: the search goes on behind it at the same depth.
pub proof fn law_nested_file_is_passed_over(
    data: Seq<u8>,
    header: Seq<u8>,
    footer: Seq<u8>,
    skip_before: int,
    inner: int,
    inner_close: int,
    to: int,
)
    requires
        0 <= inner,
        inner + header.len() <= inner_close < to,
        header.len() > 0,
        footer.len() > 0,
        bytes::pattern_at(data, inner, header),
        bytes::pattern_at(data, inner_close, footer),
        inner >= skip_before,
        forall|p: int| inner <= p < inner_close ==> !#[trigger] bytes::pattern_at(data, p, footer),
        forall|p: int| inner < p < inner_close ==> !#[trigger] bytes::pattern_at(data, p, header),
    ensures
        nesting(data, header, footer, 1, skip_before, inner, to) == nesting(
            data,
            header,
            footer,
            1,
            skip_before,
            inner_close + footer.len(),
            to,
        ),
{
    lemma_skip_plain(
        data,
        header,
        footer,
        2,
        skip_before,
        inner + header.len(),
        inner_close,
        to,
    );
}

/// Places without a mark are passed over.
pub proof fn lemma_skip_plain(
    data: Seq<u8>,
    header: Seq<u8>,
    footer: Seq<u8>,
    depth: int,
    skip_before: int,
    at: int,
    upto: int,
    to: int,
)
    requires
        at <= upto < to,
        footer.len() > 0,
        forall|p: int| at <= p < upto ==> !#[trigger] bytes::pattern_at(data, p, footer),
        forall|p: int| at <= p < upto ==> !#[trigger] bytes::pattern_at(data, p, header),
    ensures
        nesting(data, header, footer, depth, skip_before, at, to) == nesting(
            data,
            header,
            footer,
            depth,
            skip_before,
            upto,
            to,
        ),
    decreases upto - at,
{
    if at < upto {
        lemma_skip_plain(data, header, footer, depth, skip_before, at + 1, upto, to);
    }
}

/// From `from` on, no mark of `header` or `footer` overlaps another one in `data`.
pub open spec fn marks_apart(
    data: Seq<u8>,
    header: Seq<u8>,
    footer: Seq<u8>,
    from: int,
) -> bool {
    &&& header.len() > 0
    &&& footer.len() > 0
    &&& forall|p: int, q: int|
        from <= p < q && #[trigger] bytes::pattern_at(data, p, header)
            && #[trigger] bytes::pattern_at(data, q, header) ==> p + header.len() <= q
    &&& forall|p: int, q: int|
        from <= p < q && #[trigger] bytes::pattern_at(data, p, footer)
            && #[trigger] bytes::pattern_at(data, q, footer) ==> p + footer.len() <= q
    &&& forall|p: int, q: int|
        from <= p && from <= q && #[trigger] bytes::pattern_at(data, p, header)
            && #[trigger] bytes::pattern_at(data, q, footer) ==> p + header.len() <= q || q
            + footer.len() <= p
}

/// A mark stands at `p` and ends behind `end`.
pub open spec fn mark_past(
    data: Seq<u8>,
    header: Seq<u8>,
    footer: Seq<u8>,
    p: int,
    end: int,
) -> bool {
    ||| bytes::pattern_at(data, p, header) && p + header.len() > end
    ||| bytes::pattern_at(data, p, footer) && p + footer.len() > end
}

/// What `nesting` comes to where no marks overlap: every place is looked at.
pub open spec fn flat(
    data: Seq<u8>,
    header: Seq<u8>,
    footer: Seq<u8>,
    depth: int,
    skip_before: int,
    at: int,
    to: int,
) -> (int, Option<int>)
    decreases to - at,
{
    if at >= to {
        (depth, None)
    } else if bytes::pattern_at(data, at, footer) && at + footer.len() > skip_before {
        if depth == 1 {
            (0, Some(at))
        } else {
            flat(data, header, footer, depth - 1, skip_before, at + 1, to)
        }
    } else if bytes::pattern_at(data, at, header) && at + header.len() > skip_before {
        flat(data, header, footer, depth + 1, skip_before, at + 1, to)
    } else {
        flat(data, header, footer, depth, skip_before, at + 1, to)
    }
}

/// Places whose marks were all counted earlier are passed over.
pub proof fn lemma_flat_passes(
    data: Seq<u8>,
    header: Seq<u8>,
    footer: Seq<u8>,
    depth: int,
    skip_before: int,
    at: int,
    upto: int,
    to: int,
)
    requires
        at <= upto <= to,
        forall|p: int| at <= p < upto ==> !#[trigger] mark_past(data, header, footer, p, skip_before),
    ensures
        flat(data, header, footer, depth, skip_before, at, to) == flat(
            data,
            header,
            footer,
            depth,
            skip_before,
            upto,
            to,
        ),
    decreases upto - at,
{
    if at < upto {
        assert(!mark_past(data, header, footer, at, skip_before));
        lemma_flat_passes(data, header, footer, depth, skip_before, at + 1, upto, to);
    }
}

/// What was counted earlier makes no difference where no mark ends there.
proof fn lemma_flat_skips(
    data: Seq<u8>,
    header: Seq<u8>,
    footer: Seq<u8>,
    depth: int,
    one: int,
    other: int,
    at: int,
    to: int,
)
    requires
        forall|p: int| at <= p && #[trigger] bytes::pattern_at(data, p, header) ==> p + header.len()
            > one && p + header.len() > other,
        forall|p: int| at <= p && #[trigger] bytes::pattern_at(data, p, footer) ==> p + footer.len()
            > one && p + footer.len() > other,
    ensures
        flat(data, header, footer, depth, one, at, to) == flat(
            data,
            header,
            footer,
            depth,
            other,
            at,
            to,
        ),
    decreases to - at,
{
    if at < to {
        lemma_flat_skips(data, header, footer, depth, one, other, at + 1, to);
        lemma_flat_skips(data, header, footer, depth - 1, one, other, at + 1, to);
        lemma_flat_skips(data, header, footer, depth + 1, one, other, at + 1, to);
    }
}

/// Where no marks overlap, the count looks at every place.
pub proof fn lemma_nesting_is_flat(
    data: Seq<u8>,
    header: Seq<u8>,
    footer: Seq<u8>,
    depth: int,
    skip_before: int,
    from: int,
    at: int,
    to: int,
)
    requires
        marks_apart(data, header, footer, from),
        from <= at,
        to <= data.len(),
    ensures
        nesting(data, header, footer, depth, skip_before, at, to) == flat(
            data,
            header,
            footer,
            depth,
            skip_before,
            at,
            to,
        ),
    decreases (if at < to { to - at } else { 0 }),
{
    if at < to {
        let is_footer = bytes::pattern_at(data, at, footer);
        let is_header = bytes::pattern_at(data, at, header);
        if is_footer || is_header {
            let past = at + if is_footer { footer.len() } else { header.len() };
            let depth_after = if past <= skip_before {
                depth
            } else if is_footer {
                depth - 1
            } else {
                depth + 1
            };
            let upto = if past <= to { past } else { to };
            assert forall|p: int| at + 1 <= p < upto implies !#[trigger] mark_past(
                data,
                header,
                footer,
                p,
                skip_before,
            ) by {
                assert(!bytes::pattern_at(data, p, header) && !bytes::pattern_at(data, p, footer));
            }
            lemma_flat_passes(data, header, footer, depth_after, skip_before, at + 1, upto, to);
            lemma_nesting_is_flat(data, header, footer, depth_after, skip_before, from, past, to);
        } else {
            lemma_nesting_is_flat(data, header, footer, depth, skip_before, from, at + 1, to);
        }
    }
}

/// Counting through a part of the data up to `cut`, and then on from `resume` without what ends
/// there, comes to what counting through all of it does.
pub proof fn lemma_flat_resumes(
    data: Seq<u8>,
    header: Seq<u8>,
    footer: Seq<u8>,
    depth: int,
    skip_before: int,
    from: int,
    at: int,
    cut: int,
    resume: int,
)
    requires
        marks_apart(data, header, footer, from),
        0 <= from <= at <= cut <= data.len(),
        from <= resume <= cut,
        skip_before <= cut,
        forall|p: int| at <= p < cut && #[trigger] mark_past(data, header, footer, p, cut) ==> resume
            <= p,
        forall|p: int| resume <= p < at ==> !#[trigger] mark_past(data, header, footer, p, cut),
    ensures
        ({
            let part = flat(data.take(cut), header, footer, depth, skip_before, at, cut);
            let whole = flat(
                data,
                header,
                footer,
                depth,
                skip_before,
                at,
                data.len() as int,
            );
            if part.1 is Some {
                whole == part
            } else {
                whole == flat(
                    data,
                    header,
                    footer,
                    part.0,
                    cut,
                    resume,
                    data.len() as int,
                )
            }
        }),
    decreases cut - at,
{
    let end = data.len() as int;
    let head = data.take(cut);
    if at == cut {
        lemma_flat_skips(data, header, footer, depth, skip_before, cut, cut, end);
        lemma_flat_passes(data, header, footer, depth, cut, resume, cut, end);
    } else {
        lemma_head_has_the_marks_inside(data, cut, at, header);
        lemma_head_has_the_marks_inside(data, cut, at, footer);
        if mark_past(data, header, footer, at, cut) {
            let is_footer = bytes::pattern_at(data, at, footer);
            let length = if is_footer { footer.len() } else { header.len() };
            assert forall|p: int| at <= p < cut implies !#[trigger] mark_past(
                head,
                header,
                footer,
                p,
                skip_before,
            ) by {
                lemma_head_has_the_marks_inside(data, cut, p, header);
                lemma_head_has_the_marks_inside(data, cut, p, footer);
            }
            lemma_flat_passes(head, header, footer, depth, skip_before, at, cut, cut);
            lemma_flat_passes(data, header, footer, depth, cut, resume, at, end);
            let counted = if is_footer { depth - 1 } else { depth + 1 };
            assert forall|p: int| at + 1 <= p && #[trigger] bytes::pattern_at(data, p, header) implies p
                + header.len() > skip_before && p + header.len() > cut by {}
            assert forall|p: int| at + 1 <= p && #[trigger] bytes::pattern_at(data, p, footer) implies p
                + footer.len() > skip_before && p + footer.len() > cut by {}
            lemma_flat_skips(data, header, footer, counted, skip_before, cut, at + 1, end);
        } else {
            let counted = if bytes::pattern_at(data, at, footer) {
                if at + footer.len() > skip_before { depth - 1 } else { depth }
            } else if bytes::pattern_at(data, at, header) && at + header.len() > skip_before {
                depth + 1
            } else {
                depth
            };
            lemma_flat_resumes(
                data,
                header,
                footer,
                counted,
                skip_before,
                from,
                at + 1,
                cut,
                resume,
            );
        }
    }
}

/// A closing footer is found in any prefix that holds it.
pub proof fn lemma_close_stands_in_head(
    data: Seq<u8>,
    header: Seq<u8>,
    footer: Seq<u8>,
    depth: int,
    skip_before: int,
    at: int,
    to: int,
    close: int,
)
    requires
        nesting(data, header, footer, depth, skip_before, at, to).1 == Some(close),
    ensures
        nesting(
            data.take(close + footer.len()),
            header,
            footer,
            depth,
            skip_before,
            at,
            close + footer.len(),
        ).1 == Some(close),
    decreases (if at < to { to - at } else { 0 }),
{
    let end = close + footer.len();
    law_closing_footer_is_a_footer(data, header, footer, depth, skip_before, at, to);
    lemma_head_has_the_marks_inside(data, end, at, footer);
    lemma_head_has_the_marks_inside(data, end, at, header);
    if bytes::pattern_at(data, at, footer) {
        let past = at + footer.len();
        if past <= skip_before {
            law_closing_footer_is_a_footer(data, header, footer, depth, skip_before, past, to);
            lemma_close_stands_in_head(data, header, footer, depth, skip_before, past, to, close);
        } else if depth != 1 {
            law_closing_footer_is_a_footer(data, header, footer, depth - 1, skip_before, past, to);
            lemma_close_stands_in_head(
                data,
                header,
                footer,
                depth - 1,
                skip_before,
                past,
                to,
                close,
            );
        }
    } else if header.len() > 0 && bytes::pattern_at(data, at, header) {
        let past = at + header.len();
        let opened = if past <= skip_before { depth } else { depth + 1 };
        law_closing_footer_is_a_footer(data, header, footer, opened, skip_before, past, to);
        lemma_close_stands_in_head(data, header, footer, opened, skip_before, past, to, close);
    } else {
        lemma_close_stands_in_head(data, header, footer, depth, skip_before, at + 1, to, close);
    }
}

/// A prefix holds the marks that end in it, and no others.
pub proof fn lemma_head_has_the_marks_inside(data: Seq<u8>, cut: int, at: int, mark: Seq<u8>)
    requires
        0 <= cut <= data.len(),
    ensures
        bytes::pattern_at(data.take(cut), at, mark) == (bytes::pattern_at(data, at, mark) && at
            + mark.len() <= cut),
{
    let head = data.take(cut);
    if 0 <= at && at + mark.len() <= cut {
        assert forall|k: int| 0 <= k < mark.len() implies #[trigger] head[at + k] == data[at + k] by {}
        if bytes::pattern_at(head, at, mark) {
            assert forall|k: int| 0 <= k < mark.len() implies data[at + k] == #[trigger] mark[k] by {
                assert(head[at + k] == mark[k]);
            }
        }
        if bytes::pattern_at(data, at, mark) {
            assert forall|k: int| 0 <= k < mark.len() implies head[at + k] == #[trigger] mark[k] by {
                assert(data[at + k] == mark[k]);
            }
        }
    }
}

/// Marks that do not overlap in some data do not overlap in a prefix of it.
pub proof fn lemma_marks_apart_in_head(
    data: Seq<u8>,
    header: Seq<u8>,
    footer: Seq<u8>,
    from: int,
    cut: int,
)
    requires
        marks_apart(data, header, footer, from),
        0 <= cut <= data.len(),
    ensures
        marks_apart(data.take(cut), header, footer, from),
{
    assert forall|p: int| #[trigger] bytes::pattern_at(data.take(cut), p, header) implies bytes::pattern_at(
        data,
        p,
        header,
    ) by {
        lemma_head_has_the_marks_inside(data, cut, p, header);
    }
    assert forall|p: int| #[trigger] bytes::pattern_at(data.take(cut), p, footer) implies bytes::pattern_at(
        data,
        p,
        footer,
    ) by {
        lemma_head_has_the_marks_inside(data, cut, p, footer);
    }
}

/// Counting in a part of the data is counting in all that goes before it too, at places moved
/// ahead.
pub proof fn lemma_nesting_moves(
    data: Seq<u8>,
    base: int,
    header: Seq<u8>,
    footer: Seq<u8>,
    depth: int,
    skip_before: int,
    at: int,
    to: int,
)
    requires
        0 <= base <= data.len(),
        0 <= at,
    ensures
        ({
            let moved = nesting(
                data.skip(base),
                header,
                footer,
                depth,
                skip_before,
                at,
                to,
            );
            let here = nesting(
                data,
                header,
                footer,
                depth,
                skip_before + base,
                at + base,
                to + base,
            );
            &&& here.0 == moved.0
            &&& here.1 is Some == moved.1 is Some
            &&& moved.1 matches Some(close) ==> here.1 == Some(close + base)
        }),
    decreases (if at < to { to - at } else { 0 }),
{
    if at < to && footer.len() > 0 {
        lemma_pattern_moves(data, base, at, footer);
        lemma_pattern_moves(data, base, at, header);
        if bytes::pattern_at(data.skip(base), at, footer) {
            let past = at + footer.len();
            if past <= skip_before {
                lemma_nesting_moves(data, base, header, footer, depth, skip_before, past, to);
            } else if depth != 1 {
                lemma_nesting_moves(data, base, header, footer, depth - 1, skip_before, past, to);
            }
        } else if header.len() > 0 && bytes::pattern_at(data.skip(base), at, header) {
            let past = at + header.len();
            let opened = if past <= skip_before { depth } else { depth + 1 };
            lemma_nesting_moves(data, base, header, footer, opened, skip_before, past, to);
        } else {
            lemma_nesting_moves(data, base, header, footer, depth, skip_before, at + 1, to);
        }
    }
}

proof fn lemma_pattern_moves(data: Seq<u8>, base: int, at: int, mark: Seq<u8>)
    requires
        0 <= base <= data.len(),
        0 <= at,
    ensures
        bytes::pattern_at(data.skip(base), at, mark) == bytes::pattern_at(data, at + base, mark),
{
    let rest = data.skip(base);
    if bytes::pattern_at(rest, at, mark) {
        assert forall|k: int| 0 <= k < mark.len() implies data[at + base + k] == #[trigger] mark[k] by {
            assert(rest[at + k] == mark[k]);
        }
    }
    if bytes::pattern_at(data, at + base, mark) {
        assert forall|k: int| 0 <= k < mark.len() implies rest[at + k] == #[trigger] mark[k] by {
            assert(data[at + base + k] == mark[k]);
        }
    }
}

/// Counts levels through `data` from `scan_from` up to `scan_to`, as `nesting` says. Returns the
/// depth reached and, if it came down to zero, where the closing footer stands.
pub fn scan_nesting(
    data: &[u8],
    header: &[u8],
    footer: &[u8],
    depth: u128,
    skip_before: usize,
    scan_from: usize,
    scan_to: usize,
) -> (result: (u128, Option<usize>))
    requires
        1 <= depth,
        depth + data.len() <= u128::MAX,
    ensures
        ({
            let to = if scan_to <= data@.len() { scan_to as int } else { data@.len() as int };
            let (reached, close) = nesting(
                data@,
                header@,
                footer@,
                depth as int,
                skip_before as int,
                scan_from as int,
                to,
            );
            &&& result.0 == reached
            &&& result.1 is Some <==> close is Some
            &&& result.1 is Some ==> result.1->0 == close->0
        }),
{
    if footer.len() == 0 {
        return (depth, None);
    }
    let to: usize = if scan_to <= data.len() { scan_to } else { data.len() };
    let mut level: u128 = depth;
    let mut i: usize = scan_from;
    while i < to
        invariant
            footer@.len() > 0,
            to == (if scan_to <= data@.len() { scan_to as int } else { data.len() as int }),
            to <= data.len(),
            1 <= level,
            i <= data@.len() ==> level + (data@.len() - i) <= u128::MAX,
            nesting(
                data@,
                header@,
                footer@,
                depth as int,
                skip_before as int,
                scan_from as int,
                to as int,
            ) == nesting(
                data@,
                header@,
                footer@,
                level as int,
                skip_before as int,
                i as int,
                to as int,
            ),
        decreases data@.len() - i,
    {
        if bytes::matches_at(data, i, footer) {
            if i + footer.len() > skip_before {
                if level == 1 {
                    return (0, Some(i));
                }
                level = level - 1;
            }
            i = i + footer.len();
        } else if header.len() > 0 && bytes::matches_at(data, i, header) {
            if i + header.len() > skip_before {
                level = level + 1;
            }
            i = i + header.len();
        } else {
            i = i + 1;
        }
    }
    (level, None)
}

/// Looks for the footer that closes the file whose header ends at `start`, reading no further
/// than `search_limit`.
pub fn find_footer_nested(
    data: &[u8],
    header: &[u8],
    footer: &[u8],
    start: usize,
    search_limit: usize,
) -> (close: Option<usize>)
    ensures
        close is Some <==> closing_footer(
            data@,
            header@,
            footer@,
            start as int,
            search_limit as int,
        ) is Some,
        close is Some ==> close->0 == closing_footer(
            data@,
            header@,
            footer@,
            start as int,
            search_limit as int,
        )->0,
{
    let longest: usize = if header.len() >= footer.len() { header.len() } else { footer.len() };
    let margin: usize = if longest == 0 { 0 } else { longest - 1 };
    let from: usize = if start >= margin { start - margin } else { 0 };
    scan_nesting(data, header, footer, 1, start, from, search_limit).1
}

} // verus!
