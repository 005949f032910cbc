//! Searching the source for the footer of a file that the buffer of the scan did not hold.

use vstd::prelude::*;

use crate::bytes;
use crate::scanner::nesting;
use crate::scanner::walk_audio;

verus! {

broadcast use vstd::slice::group_slice_axioms;

/// What a search wants next.
#[derive(Debug, Clone, Copy, PartialEq, Eq, Structural)]
pub enum SearchNext {
    /// The bytes of the source from `offset` on, `want` of them as far as the source goes.
    Read { offset: u64, want: usize },
    /// Nothing more: there is no footer to be had.
    GivenUp,
}

/// Where a search stands after it was fed.
#[derive(Debug, Clone, Copy, PartialEq, Eq, Structural)]
pub enum SearchStep {
    Going,
    GivenUp,
    /// The file takes this many bytes, footer and all.
    Found(u64),
}

/// A search for the footer that closes a file. Nested files of the same format are counted as in
/// a buffer, across the borders of the reads.
pub struct FooterSearch {
    /// Where the file starts in the source.
    pub file_offset: u64,
    /// Where the search ends.
    pub search_end: u64,
    pub header: &'static [u8],
    pub footer: &'static [u8],
    pub chunk_size: usize,
    /// Where the next read starts.
    pub pos: u64,
    /// Files open so far.
    pub depth: u128,
    /// Last bytes before `pos`, in which a mark may have begun.
    pub overlap: Vec<u8>,
}

/// A search free of references.
#[verifier::ext_equal]
pub struct SearchModel {
    pub file_offset: int,
    pub search_end: int,
    pub header: Seq<u8>,
    pub footer: Seq<u8>,
    pub chunk_size: int,
    pub pos: int,
    pub depth: int,
    pub overlap: Seq<u8>,
}

/// The last bytes of `data` that may begin a mark.
pub open spec fn tail_of(data: Seq<u8>, header: Seq<u8>, footer: Seq<u8>) -> Seq<u8> {
    let keep = nesting::nesting_margin(header, footer);
    if data.len() >= keep { data.skip(data.len() - keep) } else { data }
}

impl SearchModel {
    /// The files open are at least the one searched, and no more than bytes were read.
    pub open spec fn well_formed(self) -> bool {
        &&& 0 <= self.pos
        &&& 1 <= self.depth <= 1 + self.pos
        &&& self.overlap.len() <= self.pos
        &&& 0 <= self.search_end <= u64::MAX
        &&& self.pos <= u64::MAX
        &&& 0 <= self.file_offset
    }

    /// How many bytes the search wants to see next.
    pub open spec fn wanted(self) -> int {
        if self.chunk_size <= self.search_end - self.pos {
            self.chunk_size
        } else {
            self.search_end - self.pos
        }
    }

    /// What the search wants next.
    pub open spec fn next(self, cancelled: bool) -> SearchNext {
        if self.pos >= self.search_end || cancelled {
            SearchNext::GivenUp
        } else {
            SearchNext::Read { offset: self.pos as u64, want: self.wanted() as usize }
        }
    }

    /// Depth and closing footer that the bytes fed show, behind the overlap.
    pub open spec fn counted(self, data: Seq<u8>) -> (int, Option<int>) {
        nesting::nesting(
            self.overlap + data,
            self.header,
            self.footer,
            self.depth,
            self.overlap.len() as int,
            0,
            (self.overlap + data).len() as int,
        )
    }

    /// The search after `data` was read and held no closing footer.
    pub open spec fn advanced(self, data: Seq<u8>) -> SearchModel {
        SearchModel {
            pos: self.pos + data.len(),
            depth: self.counted(data).0,
            overlap: tail_of(data, self.header, self.footer),
            ..self
        }
    }

    /// Where the search stands after it was fed `data`.
    pub open spec fn fed(self, data: Seq<u8>) -> SearchStep {
        if data.len() == 0 {
            SearchStep::GivenUp
        } else {
            match self.counted(data).1 {
                Some(close) => {
                    let end = self.pos - self.overlap.len() + close + self.footer.len();
                    SearchStep::Found(
                        (if end >= self.file_offset { end - self.file_offset } else { 0 }) as u64,
                    )
                },
                None => SearchStep::Going,
            }
        }
    }
}

impl View for FooterSearch {
    type V = SearchModel;

    open spec fn view(&self) -> SearchModel {
        SearchModel {
            file_offset: self.file_offset as int,
            search_end: self.search_end as int,
            header: self.header@,
            footer: self.footer@,
            chunk_size: self.chunk_size as int,
            pos: self.pos as int,
            depth: self.depth as int,
            overlap: self.overlap@,
        }
    }
}

impl FooterSearch {
    /// Starts a search behind the header of a file.
    pub fn new(
        file_offset: u64,
        search_start: u64,
        search_end: u64,
        header: &'static [u8],
        footer: &'static [u8],
        chunk_size: usize,
    ) -> (search: Self)
        ensures
            search@.well_formed(),
            search@ == (SearchModel {
                file_offset: file_offset as int,
                search_end: search_end as int,
                header: header@,
                footer: footer@,
                chunk_size: chunk_size as int,
                pos: search_start as int,
                depth: 1,
                overlap: Seq::empty(),
            }),
    {
        FooterSearch {
            file_offset,
            search_end,
            header,
            footer,
            chunk_size,
            pos: search_start,
            depth: 1,
            overlap: Vec::new(),
        }
    }

    /// Says what the search wants next.
    pub fn next(&self, cancelled: bool) -> (next: SearchNext)
        ensures
            next == self@.next(cancelled),
    {
        if self.pos >= self.search_end || cancelled {
            return SearchNext::GivenUp;
        }
        let left: u64 = self.search_end - self.pos;
        let want: usize = if self.chunk_size as u64 <= left {
            self.chunk_size
        } else {
            left as usize
        };
        SearchNext::Read { offset: self.pos, want }
    }

    /// Feeds the search what the read that it wanted gave, or `None` where the read failed.
    pub fn feed(&mut self, read: Option<&[u8]>) -> (step: SearchStep)
        requires
            old(self)@.well_formed(),
            old(self).pos < old(self).search_end,
            read matches Some(data) ==> data@.len() <= old(self)@.wanted(),
        ensures
            final(self)@.well_formed(),
            read is None ==> step == SearchStep::GivenUp,
            read matches Some(data) ==> {
                &&& step == old(self)@.fed(data@)
                &&& step == SearchStep::Going ==> final(self)@ == old(self)@.advanced(data@)
            },
    {
        let data = match read {
            None => {
                return SearchStep::GivenUp;
            },
            Some(data) => data,
        };
        if data.len() == 0 {
            return SearchStep::GivenUp;
        }
        let earlier: usize = self.overlap.len();
        let mut both: Vec<u8> = Vec::new();
        both.extend_from_slice(self.overlap.as_slice());
        both.extend_from_slice(data);
        assert(both@ =~= self.overlap@ + data@);
        proof {
            nesting::law_nesting_depth(
                both@,
                self.header@,
                self.footer@,
                self.depth as int,
                earlier as int,
                0,
                both@.len() as int,
            );
            nesting::law_closing_footer_is_a_footer(
                both@,
                self.header@,
                self.footer@,
                self.depth as int,
                earlier as int,
                0,
                both@.len() as int,
            );
        }
        let (depth, close) = nesting::scan_nesting(
            both.as_slice(),
            self.header,
            self.footer,
            self.depth,
            earlier,
            0,
            both.len(),
        );
        if let Some(at) = close {
            let end: u64 = self.pos - earlier as u64 + (at as u64 + self.footer.len() as u64);
            return SearchStep::Found(end.saturating_sub(self.file_offset));
        }
        let longest: usize = if self.header.len() >= self.footer.len() {
            self.header.len()
        } else {
            self.footer.len()
        };
        let keep: usize = if longest == 0 { 0 } else { longest - 1 };
        let from: usize = if data.len() >= keep { data.len() - keep } else { 0 };
        let mut overlap: Vec<u8> = Vec::new();
        overlap.extend_from_slice(vstd::slice::slice_subrange(data, from, data.len()));
        assert(overlap@ =~= tail_of(data@, self.header@, self.footer@));
        self.depth = depth;
        self.pos = self.pos + data.len() as u64;
        self.overlap = overlap;
        SearchStep::Going
    }
}

/// Size concluded by a search that is fed faithfully from `source` and never cancelled.
pub open spec fn searched(source: Seq<u8>, search: SearchModel) -> Option<int>
    decreases search.search_end - search.pos,
    when search.chunk_size >= 0 && search.pos >= 0
{
    match search.next(false) {
        SearchNext::GivenUp => None,
        SearchNext::Read { offset, want } => {
            let data = walk_audio::read_of(source, search.pos, search.wanted());
            match search.fed(data) {
                SearchStep::Found(size) => Some(size as int),
                SearchStep::GivenUp => None,
                SearchStep::Going => searched(source, search.advanced(data)),
            }
        },
    }
}

/// The size concluded ends with the footer: it really stands in the source where the file is said
/// to end, before the end of the search.
pub proof fn law_found_footer_stands_in_the_source(source: Seq<u8>, search: SearchModel)
    requires
        search.well_formed(),
        search.chunk_size >= 0,
        search.pos <= source.len(),
        search.overlap == source.subrange(search.pos - search.overlap.len(), search.pos),
        search.file_offset + search.header.len() <= search.pos,
        search.footer.len() <= search.header.len(),
    ensures
        searched(source, search) matches Some(size) ==> {
            let end = search.file_offset + size;
            &&& bytes::pattern_at(source, end - search.footer.len(), search.footer)
            &&& search.pos < end <= search.search_end
        },
    decreases search.search_end - search.pos,
{
    if let SearchNext::Read { offset, want } = search.next(false) {
        let data = walk_audio::read_of(source, search.pos, search.wanted());
        let both = search.overlap + data;
        let base = search.pos - search.overlap.len();
        let total = both.len() as int;
        nesting::law_closing_footer_is_a_footer(
            both,
            search.header,
            search.footer,
            search.depth,
            search.overlap.len() as int,
            0,
            total,
        );
        nesting::law_nesting_depth(
            both,
            search.header,
            search.footer,
            search.depth,
            search.overlap.len() as int,
            0,
            total,
        );
        assert(both =~= source.subrange(base, base + total));
        match search.fed(data) {
            SearchStep::Found(size) => {
                let close = search.counted(data).1->0;
                assert(search.file_offset + size == base + close + search.footer.len());
                assert forall|k: int| 0 <= k < search.footer.len() implies source[base + close + k]
                    == #[trigger] search.footer[k] by {
                    assert(both[close + k] == search.footer[k]);
                }
            },
            SearchStep::Going => {
                let after = search.advanced(data);
                assert(after.overlap =~= source.subrange(
                    after.pos - after.overlap.len(),
                    after.pos,
                ));
                law_found_footer_stands_in_the_source(source, after);
            },
            SearchStep::GivenUp => {},
        }
    }
}

/// Where a search in `source` ends: at the end of the source at the latest.
pub open spec fn reachable_end(source: Seq<u8>, search: SearchModel) -> int {
    if search.search_end <= source.len() { search.search_end } else { source.len() as int }
}

/// Size of the file up to its footer at `close`.
pub open spec fn size_up_to(search: SearchModel, close: Option<int>) -> Option<int> {
    match close {
        Some(close) => Some(close + search.footer.len() - search.file_offset),
        None => None,
    }
}

/// Size of the file that a search is after, with everything from its place up to its end in one
/// piece.
pub open spec fn size_in_one_piece(source: Seq<u8>, search: SearchModel) -> Option<int> {
    let end = reachable_end(source, search);
    size_up_to(
        search,
        nesting::nesting(
            source.take(end),
            search.header,
            search.footer,
            1,
            search.pos,
            search.pos,
            end,
        ).1,
    )
}

/// The pieces in which a source is read make no difference: a search comes to the size that the
/// closing footer gives in one piece, and to none exactly where there is no closing footer. It
/// holds for pieces that are not shorter than a mark that runs over their border, and where no two
/// marks overlap.
pub proof fn law_search_finds_the_closing_footer(source: Seq<u8>, search: SearchModel)
    requires
        search.depth == 1,
        search.overlap.len() == 0,
        0 < search.chunk_size,
        nesting::nesting_margin(search.header, search.footer) <= search.chunk_size,
        0 <= search.file_offset <= search.pos,
        0 <= search.search_end <= u64::MAX,
        nesting::marks_apart(
            source.take(reachable_end(source, search)),
            search.header,
            search.footer,
            search.pos,
        ),
    ensures
        searched(source, search) == size_in_one_piece(source, search),
{
    let end = reachable_end(source, search);
    let pos = search.pos;
    if pos <= source.len() {
        assert(search.overlap =~= source.subrange(pos, pos));
        lemma_search(source, search, pos);
        nesting::lemma_nesting_is_flat(
            source.take(end),
            search.header,
            search.footer,
            1,
            pos,
            pos,
            pos,
            end,
        );
    } else if pos < search.search_end {
        let data = walk_audio::read_of(source, pos, search.wanted());
        assert(data.len() == 0);
    }
}

proof fn lemma_search(source: Seq<u8>, search: SearchModel, from: int)
    requires
        0 < search.chunk_size,
        nesting::nesting_margin(search.header, search.footer) <= search.chunk_size,
        0 <= search.file_offset <= from <= search.pos - search.overlap.len(),
        search.pos <= source.len(),
        0 <= search.search_end <= u64::MAX,
        search.overlap == source.subrange(search.pos - search.overlap.len(), search.pos),
        nesting::marks_apart(
            source.take(reachable_end(source, search)),
            search.header,
            search.footer,
            from,
        ),
    ensures
        searched(source, search) == size_up_to(
            search,
            nesting::flat(
                source.take(reachable_end(source, search)),
                search.header,
                search.footer,
                search.depth,
                search.pos,
                search.pos - search.overlap.len(),
                reachable_end(source, search),
            ).1,
        ),
    decreases search.search_end - search.pos,
{
    let end = reachable_end(source, search);
    let seen = source.take(end);
    let (header, footer) = (search.header, search.footer);
    let pos = search.pos;
    let base = pos - search.overlap.len();
    if pos >= end {
        if base <= end {
            nesting::lemma_flat_passes(seen, header, footer, search.depth, pos, base, end, end);
        }
        if pos < search.search_end {
            assert(walk_audio::read_of(source, pos, search.wanted()).len() == 0);
        }
    } else {
        let data = walk_audio::read_of(source, pos, search.wanted());
        let cut = pos + data.len();
        let both = search.overlap + data;
        let head = seen.take(cut);
        assert(both =~= head.skip(base));
        nesting::lemma_nesting_moves(
            head,
            base,
            header,
            footer,
            search.depth,
            search.overlap.len() as int,
            0,
            both.len() as int,
        );
        nesting::lemma_marks_apart_in_head(seen, header, footer, from, cut);
        nesting::lemma_nesting_is_flat(head, header, footer, search.depth, pos, from, base, cut);
        let after = search.advanced(data);
        let resume = cut - after.overlap.len();
        assert forall|p: int|
            base <= p < cut && #[trigger] nesting::mark_past(
                seen,
                header,
                footer,
                p,
                cut,
            ) implies resume <= p by {
            if cut < end {
                assert(data.len() == search.chunk_size);
            }
        }
        nesting::lemma_flat_resumes(
            seen,
            header,
            footer,
            search.depth,
            pos,
            from,
            base,
            cut,
            resume,
        );
        if let Some(close) = search.counted(data).1 {
            nesting::law_closing_footer_is_a_footer(
                both,
                header,
                footer,
                search.depth,
                search.overlap.len() as int,
                0,
                both.len() as int,
            );
        } else {
            assert(after.overlap =~= source.subrange(resume, cut));
            lemma_search(source, after, from);
        }
    }
}

} // verus!
