//! The passes that settle the end of the finds for which the buffer of the scan was too short.

use vstd::prelude::*;

use crate::scanner::ends::{self, EndResult};
use crate::scanner::footer_search::{FooterSearch, SearchModel};
use crate::scanner::found::FoundFile;
use crate::scanner::order;
use crate::scanner::suppress;
use crate::scanner::walk_audio::AudioWalk;
use crate::scanner::walk_boxes::BoxWalk;
use crate::signatures::{self, audio};

verus! {

/// Bytes read at a time along a chain of audio frames: 1 MB.
pub const AUDIO_CHUNK: usize = 1_048_576;

/// Bytes read at a time in search of a footer: 4 MB.
pub const REFINE_CHUNK: usize = 4_194_304;

/// The largest extent of a find can be written as an offset.
pub open spec fn extent_fits(file: FoundFile) -> bool {
    &&& file.offset + file.signature.max_size <= u64::MAX
    &&& file.offset + file.signature.header_offset + file.signature.header@.len() <= u64::MAX
}

/// The largest extent of every find can be written as an offset.
pub open spec fn extents_fit(files: Seq<FoundFile>) -> bool {
    forall|i: int| 0 <= i < files.len() ==> extent_fits(#[trigger] files[i])
}

/// The search for the footer of a find, from behind its header on, as far as the largest size of
/// the format goes.
pub open spec fn footer_search_of(file: FoundFile) -> SearchModel {
    SearchModel {
        file_offset: file.offset as int,
        search_end: file.offset + file.signature.max_size,
        header: file.signature.header@,
        footer: file.signature.footer->0@,
        chunk_size: REFINE_CHUNK as int,
        pos: file.offset + file.signature.header_offset + file.signature.header@.len(),
        depth: 1,
        overlap: Seq::empty(),
    }
}

/// The walk along the boxes of a find, from its start on.
pub open spec fn box_walk_of(file: FoundFile, source_size: u64) -> BoxWalk {
    BoxWalk {
        offset: file.offset,
        max_size: file.signature.max_size as u64,
        source_size: source_size,
        pos: 0,
        boxes: 0,
        has_index: false,
    }
}

/// The walk along the chain of an audio find, from its start on.
pub open spec fn audio_walk_of(file: FoundFile) -> AudioWalk {
    AudioWalk {
        offset: file.offset,
        max_size: file.signature.max_size as u64,
        kind: signatures::audio_format(file.signature.name@)->0,
        chunk_size: AUDIO_CHUNK,
        consumed: 0,
        frames: 0,
        sample_rate: None,
        tag_done: false,
    }
}

/// The search for the footer of a find, where its format has one and it was not found yet: from
/// behind its header on, as far as the largest size of the format goes.
pub fn footer_search(file: &FoundFile) -> (search: Option<FooterSearch>)
    requires
        extent_fits(*file),
    ensures
        search is Some <==> !file.footer_found && file.signature.footer is Some,
        search matches Some(search) ==> search@.well_formed() && search@ == footer_search_of(*file),
{
    if file.footer_found {
        return None;
    }
    match file.signature.footer {
        None => None,
        Some(footer) => {
            let start: u64 = file.offset + file.signature.header_offset as u64
                + file.signature.header.len() as u64;
            let end: u64 = file.offset + file.signature.max_size as u64;
            Some(
                FooterSearch::new(
                    file.offset,
                    start,
                    end,
                    file.signature.header,
                    footer,
                    REFINE_CHUNK,
                ),
            )
        },
    }
}

/// A find whose footer was found after `size` bytes.
pub fn closed_by_footer(file: FoundFile, size: u64) -> (closed: FoundFile)
    ensures
        closed == (FoundFile { size: size, footer_found: true, ..file }),
{
    FoundFile { size, footer_found: true, ..file }
}

/// The walk along the boxes of a find, where its format has them and its end was not found yet.
pub fn box_walk(file: &FoundFile, source_size: u64) -> (walk: Option<BoxWalk>)
    ensures
        walk is Some <==> !file.footer_found && signatures::is_box_format(file.signature.name@),
        walk matches Some(walk) ==> walk.well_formed() && walk == box_walk_of(*file, source_size),
{
    if file.footer_found || !file.signature.is_isobmff() {
        return None;
    }
    Some(BoxWalk::new(file.offset, file.signature.max_size as u64, source_size))
}

/// What the pass over the audio finds does with the next one.
#[derive(Debug, Clone, Copy, PartialEq, Eq, Structural)]
pub enum AudioTurn {
    /// Nothing to read for this find.
    Passed,
    /// The chain of the find at this position has to be followed.
    Walk(usize),
    /// No finds left, or cancelled.
    Finished,
}

/// The pass over the audio finds, by offset.
///
/// Every frame of a song opens with the same sync word, so a song shows up as thousands of finds.
/// Once the song is settled, the finds inside it are cut to its end without following them, and
/// are dropped later as contained.
pub struct AudioPass {
    pub order: Vec<usize>,
    pub at: usize,
    /// Up to here the audio is settled.
    pub settled_to: u64,
}

/// Keys that put finds by offset.
pub open spec fn offset_keys(files: Seq<FoundFile>) -> Seq<(u64, u64)> {
    Seq::new(files.len(), |i: int| (files[i].offset, 0u64))
}

/// What the pass does with a find, when everything up to `settled_to` is settled: the find after
/// the turn, how far the audio is settled then, and whether its chain has to be followed.
pub open spec fn audio_turn(file: FoundFile, settled_to: int) -> (FoundFile, int, bool) {
    if signatures::audio_format(file.signature.name@) is None {
        (file, settled_to, false)
    } else if file.footer_found {
        (file, suppress::larger(settled_to, suppress::end_of(file)), false)
    } else if file.offset < settled_to {
        let inside = settled_to - file.offset;
        (
            FoundFile { size: if file.size <= inside { file.size } else { inside as u64 }, ..file },
            settled_to,
            false,
        )
    } else {
        (file, settled_to, true)
    }
}

/// How far the audio is settled after a chain from `offset` on was followed.
pub open spec fn settled_after(offset: int, settled_to: int, result: EndResult) -> int {
    let size: int = match result {
        EndResult::Size(size) => size as int,
        EndResult::SizeUnverified(size) => size as int,
        EndResult::SizeGuess(size) => size as int,
        _ => -1,
    };
    if size < 0 {
        settled_to
    } else if offset + size <= u64::MAX {
        offset + size
    } else {
        u64::MAX as int
    }
}

/// Two lists hold the same files in the same places, but for what is known of their ends.
pub open spec fn same_files(a: Seq<FoundFile>, b: Seq<FoundFile>) -> bool {
    &&& a.len() == b.len()
    &&& forall|i: int|
        0 <= i < a.len() ==> {
            &&& (#[trigger] a[i]).offset == b[i].offset
            &&& a[i].signature == b[i].signature
            &&& a[i].index == b[i].index
        }
}

impl AudioPass {
    /// The pass goes over a list of `count` finds.
    pub open spec fn well_formed(self, count: int) -> bool {
        &&& self.order@.len() == count
        &&& self.at <= count
        &&& forall|k: int| 0 <= k < count ==> 0 <= #[trigger] self.order@[k] < count
    }

    /// Starts a pass.
    pub fn new(files: &Vec<FoundFile>) -> (pass: Self)
        ensures
            pass.well_formed(files@.len() as int),
            order::is_order(offset_keys(files@), pass.order@),
            pass.at == 0,
            pass.settled_to == 0,
    {
        let mut keys: Vec<(u64, u64)> = Vec::new();
        let mut i: usize = 0;
        while i < files.len()
            invariant
                i <= files@.len(),
                keys@ =~= offset_keys(files@).take(i as int),
            decreases files@.len() - i,
        {
            keys.push((files[i].offset, 0));
            i = i + 1;
        }
        assert(keys@ =~= offset_keys(files@));
        AudioPass { order: order::stable_order(&keys), at: 0, settled_to: 0 }
    }

    /// Turns to the next find.
    pub fn turn(&mut self, files: &mut Vec<FoundFile>, cancelled: bool) -> (turn: AudioTurn)
        requires
            old(self).well_formed(old(files)@.len() as int),
        ensures
            final(self).well_formed(final(files)@.len() as int),
            final(self).order == old(self).order,
            same_files(final(files)@, old(files)@),
            if cancelled || old(self).at >= old(files)@.len() {
                &&& turn == AudioTurn::Finished
                &&& final(files)@ == old(files)@
                &&& *final(self) == *old(self)
            } else {
                let i = old(self).order@[old(self).at as int] as int;
                let (file, settled_to, walk) = audio_turn(
                    old(files)@[i],
                    old(self).settled_to as int,
                );
                &&& final(files)@ == old(files)@.update(i, file)
                &&& final(self).settled_to == settled_to
                &&& final(self).at == old(self).at + 1
                &&& turn == (if walk { AudioTurn::Walk(i as usize) } else { AudioTurn::Passed })
            },
    {
        if cancelled || self.at >= files.len() {
            return AudioTurn::Finished;
        }
        let i: usize = self.order[self.at];
        self.at = self.at + 1;
        let file = files[i];
        assert(files@.update(i as int, file) =~= files@);
        if file.signature.audio_stream().is_none() {
            return AudioTurn::Passed;
        }
        if file.footer_found {
            let end: u64 = file.offset.saturating_add(file.size);
            if end > self.settled_to {
                self.settled_to = end;
            }
            return AudioTurn::Passed;
        }
        if file.offset < self.settled_to {
            let inside: u64 = self.settled_to - file.offset;
            let size: u64 = if file.size <= inside { file.size } else { inside };
            files.set(i, FoundFile { size, ..file });
            return AudioTurn::Passed;
        }
        AudioTurn::Walk(i)
    }

    /// Notes what following the chain of the find at `i` came to.
    pub fn note(&mut self, files: &mut Vec<FoundFile>, i: usize, result: EndResult)
        requires
            old(self).well_formed(old(files)@.len() as int),
            i < old(files)@.len(),
        ensures
            final(self).well_formed(final(files)@.len() as int),
            final(self).order == old(self).order,
            final(self).at == old(self).at,
            same_files(final(files)@, old(files)@),
            final(files)@ == old(files)@.update(
                i as int,
                ends::concluded(old(files)@[i as int], result),
            ),
            final(self).settled_to == settled_after(
                old(files)@[i as int].offset as int,
                old(self).settled_to as int,
                result,
            ),
    {
        let file = files[i];
        files.set(i, ends::conclude(file, result));
        match result {
            EndResult::Size(size) => {
                self.settled_to = file.offset.saturating_add(size);
            },
            EndResult::SizeUnverified(size) => {
                self.settled_to = file.offset.saturating_add(size);
            },
            EndResult::SizeGuess(size) => {
                self.settled_to = file.offset.saturating_add(size);
            },
            _ => {},
        }
    }
}

/// The walk along the chain of an audio find.
pub fn audio_walk(file: &FoundFile) -> (walk: Option<AudioWalk>)
    requires
        extent_fits(*file),
    ensures
        walk is Some <==> signatures::audio_format(file.signature.name@) is Some,
        walk matches Some(walk) ==> walk.well_formed() && walk == audio_walk_of(*file),
{
    match file.signature.audio_stream() {
        None => None,
        Some(kind) => Some(
            AudioWalk::new(file.offset, file.signature.max_size as u64, kind, AUDIO_CHUNK),
        ),
    }
}

/// A find inside settled audio never reaches past it, so it will be dropped as contained.
pub proof fn law_frames_stay_inside_their_song(file: FoundFile, settled_to: int)
    requires
        signatures::audio_format(file.signature.name@) is Some,
        !file.footer_found,
        file.offset < settled_to <= u64::MAX,
    ensures
        suppress::end_of(audio_turn(file, settled_to).0) <= settled_to,
        !audio_turn(file, settled_to).2,
{
}

/// A find of another format settles nothing, so it never cuts the start of a song.
pub proof fn law_only_audio_settles(file: FoundFile, settled_to: int)
    requires
        signatures::audio_format(file.signature.name@) is None,
    ensures
        audio_turn(file, settled_to) == (file, settled_to, false),
{
}

/// An audio find that opens behind everything settled is followed, and stays as it is until then. One
/// whose end is known is not followed, and settles the source up to its end.
pub proof fn law_open_songs_are_followed(file: FoundFile, settled_to: int)
    requires
        signatures::audio_format(file.signature.name@) is Some,
    ensures
        audio_turn(file, settled_to).2 <==> !file.footer_found && file.offset >= settled_to,
        file.footer_found || file.offset >= settled_to ==> audio_turn(file, settled_to).0 == file,
        file.footer_found && file.offset + file.size <= u64::MAX ==> audio_turn(file, settled_to).1
            == if file.offset + file.size >= settled_to {
            file.offset + file.size
        } else {
            settled_to
        },
        !file.footer_found ==> audio_turn(file, settled_to).1 == settled_to,
{
}

/// A find inside a song is cut to the end of the song, and keeps its size where it ends before that.
pub proof fn law_finds_inside_a_song_are_cut_to_its_end(file: FoundFile, settled_to: int)
    requires
        signatures::audio_format(file.signature.name@) is Some,
        !file.footer_found,
        file.offset < settled_to <= u64::MAX,
    ensures
        ({
            let inside = audio_turn(file, settled_to).0;
            &&& file.offset + file.size <= settled_to ==> inside == file
            &&& file.offset + file.size > settled_to ==> inside.offset + inside.size == settled_to
            &&& inside.footer_found == file.footer_found
            &&& inside.end_unknown == file.end_unknown
        }),
{
}

/// Following a song settles the source up to its end, however sure that is; where there is none,
/// nothing is settled.
pub proof fn law_songs_settle_up_to_their_end(offset: u64, settled_to: int, size: u64)
    requires
        offset + size <= u64::MAX,
    ensures
        settled_after(offset as int, settled_to, EndResult::Size(size)) == offset + size,
        settled_after(offset as int, settled_to, EndResult::SizeUnverified(size)) == offset + size,
        settled_after(offset as int, settled_to, EndResult::SizeGuess(size)) == offset + size,
        settled_after(offset as int, settled_to, EndResult::Rejected) == settled_to,
        settled_after(offset as int, settled_to, EndResult::Unreadable) == settled_to,
{
}

/// A footer is searched from behind the header on, as far as the largest size of the format goes; the
/// boxes and the frames of a find are followed from its start on.
pub proof fn law_ends_are_searched_inside_the_largest_size(file: FoundFile, source_size: u64)
    requires
        file.signature.footer is Some,
    ensures
        ({
            let search = footer_search_of(file);
            &&& search.file_offset == file.offset
            &&& search.pos == file.offset + file.signature.header_offset
                + file.signature.header@.len()
            &&& search.search_end - search.file_offset == file.signature.max_size
            &&& search.header == file.signature.header@
            &&& search.footer == file.signature.footer->0@
            &&& search.depth == 1
            &&& search.overlap.len() == 0
        }),
        ({
            let walk = box_walk_of(file, source_size);
            walk.offset == file.offset && walk.pos == 0 && walk.boxes == 0 && !walk.has_index
                && walk.max_size == file.signature.max_size && walk.source_size == source_size
        }),
        ({
            let walk = audio_walk_of(file);
            walk.offset == file.offset && walk.consumed == 0 && walk.frames == 0 && !walk.tag_done
                && walk.max_size == file.signature.max_size && walk.sample_rate is None
        }),
{
}

} // verus!
