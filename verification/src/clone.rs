//! Copying a failing disk to an image file, before anything else is done with it.
//!
//! A read error never ends the copy. A block that cannot be read is read again sector by sector,
//! and only the sectors that cannot be read are filled with zeros. The image always has the size
//! of the source.

use vstd::prelude::*;
use vstd::string::*;

use crate::scanner::walk_audio;
use crate::text;
use crate::util;

verus! {

/// Bytes copied at a time: 1 MB.
pub const BLOCK: usize = 1_048_576;

/// Size of a sector, the smallest part that is given up.
pub const SECTOR: usize = 512;

/// What the outside sees of the copy under way.
#[derive(Debug, Clone, Copy, PartialEq, Eq, Structural)]
pub struct CloneState {
    pub in_progress: bool,
    pub cancel_requested: bool,
    pub progress_bytes: u64,
}

impl CloneState {
    /// No copy yet.
    pub fn idle() -> (state: Self)
        ensures
            state == (CloneState {
                in_progress: false,
                cancel_requested: false,
                progress_bytes: 0,
            }),
    {
        CloneState { in_progress: false, cancel_requested: false, progress_bytes: 0 }
    }

    /// A copy starts: nothing of the one before is left, not even a request to cancel it.
    pub fn begin(&mut self)
        ensures
            *final(self) == (CloneState {
                in_progress: true,
                cancel_requested: false,
                progress_bytes: 0,
            }),
    {
        self.cancel_requested = false;
        self.progress_bytes = 0;
        self.in_progress = true;
    }

    /// The copy ended.
    pub fn end(&mut self)
        ensures
            *final(self) == (CloneState { in_progress: false, ..*old(self) }),
    {
        self.in_progress = false;
    }
}

/// Whether a copy is under way.
pub fn is_clone_in_progress(state: &CloneState) -> (yes: bool)
    ensures
        yes == state.in_progress,
{
    state.in_progress
}

/// Asks the copy under way to stop. The partial image stays.
pub fn request_cancel(state: &mut CloneState)
    ensures
        *final(state) == (CloneState { cancel_requested: true, ..*old(state) }),
{
    state.cancel_requested = true;
}

/// Whether the copy under way was asked to stop.
pub fn cancel_requested(state: &CloneState) -> (yes: bool)
    ensures
        yes == state.cancel_requested,
{
    state.cancel_requested
}

/// Bytes of the source copied so far.
pub fn clone_progress_bytes(state: &CloneState) -> (bytes: u64)
    ensures
        bytes == state.progress_bytes,
{
    state.progress_bytes
}

/// Copying one block.
#[derive(Debug, Clone, Copy, PartialEq, Eq, Structural)]
pub struct BlockCopy {
    pub start: u64,
    pub len: usize,
    /// The block could not be read as a whole, so it is read sector by sector.
    pub by_sector: bool,
    /// Bytes of the block that are in the image.
    pub done: usize,
    pub good: u64,
    pub bad: u64,
}

/// What goes to the image after a read: so many of the bytes read, then so many zeros.
#[derive(Debug, Clone, Copy, PartialEq, Eq, Structural)]
pub struct ImagePart {
    pub data: usize,
    pub zeros: usize,
}

impl BlockCopy {
    /// What is counted as good and bad never exceeds what is in the image.
    pub open spec fn well_formed(self) -> bool {
        &&& self.start + self.len <= u64::MAX
        &&& self.done <= self.len
        &&& self.good + self.bad <= self.done
        &&& !self.by_sector ==> self.done == 0 || self.done == self.len
    }

    /// Bytes that the copy wants to read next, from `start + done` on; 0 where it is done.
    pub open spec fn wanted(self) -> int {
        if self.by_sector && self.len - self.done > SECTOR {
            SECTOR as int
        } else {
            self.len - self.done
        }
    }

    /// What goes to the image once a read gave `read` bytes, or failed. A short read is the end of
    /// the source and no damage: the rest is filled with zeros, but not counted as bad.
    pub open spec fn part_of(self, read: Option<usize>) -> ImagePart {
        match read {
            Some(count) => ImagePart { data: count, zeros: (self.wanted() - count) as usize },
            None => ImagePart {
                data: 0,
                zeros: if self.by_sector { self.wanted() as usize } else { 0 },
            },
        }
    }

    /// The copy after that read.
    pub open spec fn after(self, read: Option<usize>) -> BlockCopy {
        match read {
            Some(count) => BlockCopy {
                done: (self.done + self.wanted()) as usize,
                good: (self.good + count) as u64,
                ..self
            },
            None => if self.by_sector {
                BlockCopy {
                    done: (self.done + self.wanted()) as usize,
                    bad: (self.bad + self.wanted()) as u64,
                    ..self
                }
            } else {
                BlockCopy { by_sector: true, ..self }
            },
        }
    }

    /// Starts to copy the block of `len` bytes at `start`.
    pub fn new(start: u64, len: usize) -> (copy: Self)
        requires
            start + len <= u64::MAX,
        ensures
            copy.well_formed(),
            copy == (BlockCopy {
                start: start,
                len: len,
                by_sector: false,
                done: 0,
                good: 0,
                bad: 0,
            }),
    {
        BlockCopy { start, len, by_sector: false, done: 0, good: 0, bad: 0 }
    }

    /// Says what to read next: where, and how many bytes. `None` where the block is done.
    pub fn next(&self) -> (read: Option<(u64, usize)>)
        requires
            self.well_formed(),
        ensures
            read == (if self.done == self.len {
                None::<(u64, usize)>
            } else {
                Some(((self.start + self.done) as u64, self.wanted() as usize))
            }),
    {
        if self.done == self.len {
            return None;
        }
        Some((self.start + self.done as u64, self.want()))
    }

    fn want(&self) -> (want: usize)
        requires
            self.well_formed(),
        ensures
            want == self.wanted(),
    {
        let left: usize = self.len - self.done;
        if self.by_sector && left > SECTOR {
            SECTOR
        } else {
            left
        }
    }

    /// Takes note of a read that gave so many bytes, or failed, and says what goes to the image.
    pub fn take(&mut self, read: Option<usize>) -> (part: ImagePart)
        requires
            old(self).well_formed(),
            old(self).done < old(self).len,
            read matches Some(count) ==> count <= old(self).wanted(),
        ensures
            final(self).well_formed(),
            *final(self) == old(self).after(read),
            part == old(self).part_of(read),
            part.data + part.zeros == final(self).done - old(self).done,
    {
        let want: usize = self.want();
        match read {
            Some(count) => {
                self.done = self.done + want;
                self.good = self.good + count as u64;
                ImagePart { data: count, zeros: want - count }
            },
            None => {
                if self.by_sector {
                    self.done = self.done + want;
                    self.bad = self.bad + want as u64;
                    ImagePart { data: 0, zeros: want }
                } else {
                    self.by_sector = true;
                    ImagePart { data: 0, zeros: 0 }
                }
            },
        }
    }
}

/// So many zero bytes.
pub open spec fn zeros(count: int) -> Seq<u8> {
    Seq::new(count as nat, |i: int| 0u8)
}

/// No byte from `from` on, `count` of them, is damaged.
pub open spec fn is_clean(damaged: Set<int>, from: int, count: int) -> bool {
    forall|p: int| from <= p < from + count ==> !#[trigger] damaged.contains(p)
}

/// What a read of a source with damaged bytes gives: nothing where it meets damage.
pub open spec fn read_damaged(
    source: Seq<u8>,
    damaged: Set<int>,
    from: int,
    count: int,
) -> Option<Seq<u8>> {
    if is_clean(damaged, from, count) {
        Some(walk_audio::read_of(source, from, count))
    } else {
        None
    }
}

/// What the rest of a block becomes in the image.
pub open spec fn image_of(source: Seq<u8>, damaged: Set<int>, copy: BlockCopy) -> Seq<u8>
    decreases copy.len - copy.done, (if copy.by_sector { 0int } else { 1int }),
    when copy.well_formed()
{
    if copy.done >= copy.len {
        Seq::empty()
    } else {
        match read_damaged(source, damaged, copy.start + copy.done, copy.wanted()) {
            Some(data) => data + zeros(copy.wanted() - data.len()) + image_of(
                source,
                damaged,
                copy.after(Some(data.len() as usize)),
            ),
            None => zeros(copy.part_of(None).zeros as int) + image_of(
                source,
                damaged,
                copy.after(None),
            ),
        }
    }
}

/// The copy of a block once it is complete.
pub open spec fn completed(source: Seq<u8>, damaged: Set<int>, copy: BlockCopy) -> BlockCopy
    decreases copy.len - copy.done, (if copy.by_sector { 0int } else { 1int }),
    when copy.well_formed()
{
    if copy.done >= copy.len {
        copy
    } else {
        completed(
            source,
            damaged,
            copy.after(
                match read_damaged(source, damaged, copy.start + copy.done, copy.wanted()) {
                    Some(data) => Some(data.len() as usize),
                    None => None,
                },
            ),
        )
    }
}

/// Place `p` of a source of `total` bytes cannot be read: there is damage in its sector.
pub open spec fn is_lost(damaged: Set<int>, total: int, p: int) -> bool {
    let from = (p / 512) * 512;
    let to = if from + 512 <= total { from + 512 } else { total };
    !is_clean(damaged, from, to - from)
}

/// How many of the first `n` places cannot be read.
pub open spec fn lost_before(damaged: Set<int>, total: int, n: int) -> int
    decreases n,
{
    if n <= 0 {
        0
    } else {
        lost_before(damaged, total, n - 1) + if is_lost(damaged, total, n - 1) { 1int } else { 0int }
    }
}

/// Block `k` of a source of `total` bytes holds a place that cannot be read.
pub open spec fn has_loss(damaged: Set<int>, total: int, k: int) -> bool {
    exists|p: int| k * BLOCK <= p < (k + 1) * BLOCK && p < total && #[trigger] is_lost(damaged, total, p)
}

/// How many of the first `n` blocks hold a place that cannot be read.
pub open spec fn lossy_blocks(damaged: Set<int>, total: int, n: int) -> int
    decreases n,
{
    if n <= 0 {
        0
    } else {
        lossy_blocks(damaged, total, n - 1) + if has_loss(damaged, total, n - 1) {
            1int
        } else {
            0int
        }
    }
}

/// How many blocks the first `n` bytes take.
pub open spec fn blocks_of(n: int) -> int {
    (n + BLOCK - 1) / (BLOCK as int)
}

/// The byte of the image at place `p`: that of the source, or zero where it cannot be read.
pub open spec fn image_byte(source: Seq<u8>, damaged: Set<int>, total: int, p: int) -> u8 {
    if is_lost(damaged, total, p) { 0 } else { source[p] }
}

/// The block stands at sector borders of a source of `total` bytes.
pub open spec fn is_aligned(copy: BlockCopy, total: int) -> bool {
    &&& copy.start % 512 == 0
    &&& copy.start + copy.len <= total
    &&& copy.start + copy.len == total || copy.len % 512 == 0
    &&& copy.done % 512 == 0 || copy.done == copy.len
}

/// The bytes of the image from place `from` up to `to`.
pub open spec fn image_bytes(
    source: Seq<u8>,
    damaged: Set<int>,
    total: int,
    from: int,
    to: int,
) -> Seq<u8> {
    Seq::new((to - from) as nat, |q: int| image_byte(source, damaged, total, from + q))
}

/// The rest of a block becomes what the image should hold, and all of it is counted.
pub open spec fn is_faithful(
    source: Seq<u8>,
    damaged: Set<int>,
    total: int,
    copy: BlockCopy,
) -> bool {
    let from = copy.start + copy.done;
    let to = copy.start + copy.len;
    let lost = lost_before(damaged, total, to) - lost_before(damaged, total, from);
    let whole = completed(source, damaged, copy);
    &&& image_of(source, damaged, copy) == image_bytes(source, damaged, total, from, to)
    &&& whole.well_formed()
    &&& whole.start == copy.start
    &&& whole.len == copy.len
    &&& whole.done == copy.len
    &&& whole.bad == copy.bad + lost
    &&& whole.good == copy.good + (to - from) - lost
}

/// The rest of a block becomes in the image what can be read of it, and zeros elsewhere; all of it
/// is counted, as good or as bad.
pub proof fn law_block_holds_all_that_can_be_read(
    source: Seq<u8>,
    damaged: Set<int>,
    total: int,
    copy: BlockCopy,
)
    requires
        copy.well_formed(),
        is_aligned(copy, total),
        total <= source.len(),
        total <= u64::MAX,
    ensures
        is_faithful(source, damaged, total, copy),
    decreases copy.len - copy.done, (if copy.by_sector { 0int } else { 1int }),
{
    if copy.done >= copy.len {
        assert(image_of(source, damaged, copy) =~= image_bytes(
            source,
            damaged,
            total,
            copy.start + copy.done,
            copy.start + copy.len,
        ));
    } else if is_clean(damaged, copy.start + copy.done, copy.wanted()) {
        let rest = copy.after(Some(copy.wanted() as usize));
        law_block_holds_all_that_can_be_read(source, damaged, total, rest);
        lemma_good_read(source, damaged, total, copy, rest);
    } else {
        let rest = copy.after(None);
        law_block_holds_all_that_can_be_read(source, damaged, total, rest);
        lemma_bad_read(source, damaged, total, copy, rest);
    }
}

proof fn lemma_good_read(
    source: Seq<u8>,
    damaged: Set<int>,
    total: int,
    copy: BlockCopy,
    rest: BlockCopy,
)
    requires
        copy.well_formed(),
        is_aligned(copy, total),
        total <= source.len(),
        total <= u64::MAX,
        copy.done < copy.len,
        is_clean(damaged, copy.start + copy.done, copy.wanted()),
        rest == copy.after(Some(copy.wanted() as usize)),
        is_faithful(source, damaged, total, rest),
    ensures
        is_faithful(source, damaged, total, copy),
{
    let from = copy.start + copy.done;
    let end = from + copy.wanted();
    let to = copy.start + copy.len;
    let data = walk_audio::read_of(source, from, copy.wanted());
    assert(data.len() == copy.wanted());
    assert(zeros(0) =~= Seq::empty());
    let image = image_of(source, damaged, copy);
    let tail = image_of(source, damaged, rest);
    assert(image =~= data + tail);
    assert forall|p: int| from <= p < end implies !#[trigger] is_lost(damaged, total, p) by {
        lemma_sector_inside(from, end, total, p);
    }
    lemma_lost_in_range(damaged, total, from, end, false);
    let wanted = image_bytes(source, damaged, total, from, to);
    assert forall|q: int| 0 <= q < to - from implies image[q] == #[trigger] wanted[q] by {
        if q < copy.wanted() {
            assert(!is_lost(damaged, total, from + q));
        } else {
            assert(image[q] == tail[q - copy.wanted()]);
            assert(tail[q - copy.wanted()] == image_byte(source, damaged, total, from + q));
        }
    }
    assert(image =~= wanted);
}

proof fn lemma_bad_read(
    source: Seq<u8>,
    damaged: Set<int>,
    total: int,
    copy: BlockCopy,
    rest: BlockCopy,
)
    requires
        copy.well_formed(),
        is_aligned(copy, total),
        total <= source.len(),
        total <= u64::MAX,
        copy.done < copy.len,
        !is_clean(damaged, copy.start + copy.done, copy.wanted()),
        rest == copy.after(None),
        is_faithful(source, damaged, total, rest),
    ensures
        is_faithful(source, damaged, total, copy),
{
    let from = copy.start + copy.done;
    let to = copy.start + copy.len;
    let image = image_of(source, damaged, copy);
    let tail = image_of(source, damaged, rest);
    let wanted = image_bytes(source, damaged, total, from, to);
    if copy.by_sector {
        let end = from + copy.wanted();
        assert(image =~= zeros(copy.wanted()) + tail);
        assert forall|p: int| from <= p < end implies #[trigger] is_lost(damaged, total, p) by {
            lemma_sector_inside(from, end, total, p);
            assert((p / 512) * 512 == from);
        }
        lemma_lost_in_range(damaged, total, from, end, true);
        assert forall|q: int| 0 <= q < to - from implies image[q] == #[trigger] wanted[q] by {
            if q < copy.wanted() {
                assert(is_lost(damaged, total, from + q));
            } else {
                assert(image[q] == tail[q - copy.wanted()]);
                assert(tail[q - copy.wanted()] == image_byte(source, damaged, total, from + q));
            }
        }
        assert(image =~= wanted);
    } else {
        assert(zeros(0) =~= Seq::empty());
        assert(image =~= tail);
    }
}

/// The sector of a place between two sector borders lies between them.
proof fn lemma_sector_inside(from: int, to: int, total: int, p: int)
    requires
        0 <= from <= p < to <= total,
        from % 512 == 0,
        to % 512 == 0 || to == total,
    ensures
        from <= (p / 512) * 512,
        (if (p / 512) * 512 + 512 <= total { (p / 512) * 512 + 512 } else { total }) <= to,
{
}

proof fn lemma_lost_in_range(damaged: Set<int>, total: int, from: int, to: int, lost: bool)
    requires
        0 <= from <= to,
        forall|p: int| from <= p < to ==> #[trigger] is_lost(damaged, total, p) == lost,
    ensures
        lost_before(damaged, total, to) == lost_before(damaged, total, from) + if lost {
            to - from
        } else {
            0
        },
    decreases to - from,
{
    if from < to {
        lemma_lost_in_range(damaged, total, from, to - 1, lost);
        assert(is_lost(damaged, total, to - 1) == lost);
    }
}

/// Copying a whole source.
#[derive(Debug, Clone, Copy, PartialEq, Eq, Structural)]
pub struct CloneRun {
    pub total: u64,
    pub pos: u64,
    pub good_bytes: u64,
    pub bad_bytes: u64,
    pub bad_blocks: u64,
    pub cancelled: bool,
}

/// Result of a copy.
pub struct CloneResult {
    /// Size of the source.
    pub total_bytes: u64,
    /// Bytes that could be read.
    pub good_bytes: u64,
    /// Bytes that could not be read and are zero in the image.
    pub bad_bytes: u64,
    /// Blocks with at least one sector that could not be read.
    pub bad_blocks: u64,
    /// The user cancelled; the partial image is good.
    pub cancelled: bool,
    pub output_path: String,
}

impl CloneRun {
    /// What is counted never exceeds what was copied.
    pub open spec fn well_formed(self) -> bool {
        &&& self.pos <= self.total
        &&& self.good_bytes + self.bad_bytes <= self.pos
        &&& self.bad_blocks <= self.bad_bytes
    }

    /// Length of the next block; 0 where the copy is complete.
    pub open spec fn block_len(self) -> int {
        if self.total - self.pos > BLOCK { BLOCK as int } else { self.total - self.pos }
    }

    /// The next block.
    pub open spec fn block(self) -> BlockCopy {
        BlockCopy {
            start: self.pos,
            len: self.block_len() as usize,
            by_sector: false,
            done: 0,
            good: 0,
            bad: 0,
        }
    }

    /// The copy once this block is in the image.
    pub open spec fn after(self, block: BlockCopy) -> CloneRun {
        CloneRun {
            pos: (self.pos + block.len) as u64,
            good_bytes: (self.good_bytes + block.good) as u64,
            bad_bytes: (self.bad_bytes + block.bad) as u64,
            bad_blocks: (self.bad_blocks + if block.bad > 0 { 1int } else { 0int }) as u64,
            ..self
        }
    }

    /// Starts to copy a source of `total` bytes.
    pub fn new(total: u64) -> (run: Self)
        ensures
            run.well_formed(),
            run == (CloneRun {
                total: total,
                pos: 0,
                good_bytes: 0,
                bad_bytes: 0,
                bad_blocks: 0,
                cancelled: false,
            }),
    {
        CloneRun { total, pos: 0, good_bytes: 0, bad_bytes: 0, bad_blocks: 0, cancelled: false }
    }

    /// Turns to the next block, or returns `None` where there is none left or the user cancelled.
    pub fn next(&mut self, cancelled: bool) -> (block: Option<BlockCopy>)
        requires
            old(self).well_formed(),
        ensures
            final(self).well_formed(),
            if old(self).pos == old(self).total {
                block is None && *final(self) == *old(self)
            } else if cancelled {
                block is None && *final(self) == (CloneRun { cancelled: true, ..*old(self) })
            } else {
                *final(self) == *old(self) && block == Some(old(self).block())
            },
    {
        if self.pos >= self.total {
            return None;
        }
        if cancelled {
            self.cancelled = true;
            return None;
        }
        let left: u64 = self.total - self.pos;
        let len: usize = if left > BLOCK as u64 { BLOCK } else { left as usize };
        Some(BlockCopy::new(self.pos, len))
    }

    /// Takes note of a block that is in the image.
    pub fn note(&mut self, block: &BlockCopy)
        requires
            old(self).well_formed(),
            block.well_formed(),
            block.done == block.len,
            block.start == old(self).pos,
            block.len == old(self).block_len(),
        ensures
            final(self).well_formed(),
            *final(self) == old(self).after(*block),
    {
        self.good_bytes = self.good_bytes + block.good;
        self.bad_bytes = self.bad_bytes + block.bad;
        if block.bad > 0 {
            self.bad_blocks = self.bad_blocks + 1;
        }
        self.pos = self.pos + block.len as u64;
    }

    /// Ends the copy.
    pub fn finish(self, output_path: String) -> (result: CloneResult)
        ensures
            result == (CloneResult {
                total_bytes: self.total,
                good_bytes: self.good_bytes,
                bad_bytes: self.bad_bytes,
                bad_blocks: self.bad_blocks,
                cancelled: self.cancelled,
                output_path: output_path,
            }),
    {
        CloneResult {
            total_bytes: self.total,
            good_bytes: self.good_bytes,
            bad_bytes: self.bad_bytes,
            bad_blocks: self.bad_blocks,
            cancelled: self.cancelled,
            output_path,
        }
    }
}

/// What the rest of a source becomes in the image, and the copy in the end, where it is never
/// cancelled. Every block brings the copy further, and the condition on it only says so.
pub open spec fn cloned(source: Seq<u8>, damaged: Set<int>, run: CloneRun) -> (Seq<u8>, CloneRun)
    decreases run.total - run.pos,
    when run.well_formed()
{
    let block = run.block();
    let whole = completed(source, damaged, block);
    let after = run.after(whole);
    if run.pos >= run.total || !after.well_formed() || after.pos <= run.pos || after.total
        != run.total {
        (Seq::empty(), run)
    } else {
        let (rest, last) = cloned(source, damaged, after);
        (image_of(source, damaged, block) + rest, last)
    }
}

/// An image has the size of the source. Every byte of a sector without damage is the byte of the
/// source, every other byte is zero, and the copy counts how many there are of each, and the blocks
/// that hold a byte that cannot be read.
pub proof fn law_image_holds_all_that_can_be_read(source: Seq<u8>, damaged: Set<int>, total: u64)
    requires
        total <= source.len(),
    ensures
        ({
            let start = CloneRun {
                total: total,
                pos: 0,
                good_bytes: 0,
                bad_bytes: 0,
                bad_blocks: 0,
                cancelled: false,
            };
            let (image, run) = cloned(source, damaged, start);
            let lost = lost_before(damaged, total as int, total as int);
            &&& image.len() == total
            &&& forall|p: int|
                0 <= p < total ==> #[trigger] image[p] == if is_lost(damaged, total as int, p) {
                    0
                } else {
                    source[p]
                }
            &&& run.pos == total
            &&& run.bad_bytes == lost
            &&& run.good_bytes == total - lost
            &&& run.bad_blocks == lossy_blocks(damaged, total as int, blocks_of(total as int))
        }),
{
    let start = CloneRun {
        total: total,
        pos: 0,
        good_bytes: 0,
        bad_bytes: 0,
        bad_blocks: 0,
        cancelled: false,
    };
    lemma_rest_is_cloned(source, damaged, start);
}

proof fn lemma_rest_is_cloned(source: Seq<u8>, damaged: Set<int>, run: CloneRun)
    requires
        run.well_formed(),
        run.total <= source.len(),
        run.pos as int % BLOCK as int == 0 || run.pos == run.total,
        run.bad_blocks == lossy_blocks(damaged, run.total as int, blocks_of(run.pos as int)),
        run.bad_bytes == lost_before(damaged, run.total as int, run.pos as int),
        run.good_bytes == run.pos - run.bad_bytes,
    ensures
        ({
            let total = run.total as int;
            let (image, last) = cloned(source, damaged, run);
            &&& image == image_bytes(source, damaged, total, run.pos as int, total)
            &&& last.pos == total
            &&& last.bad_bytes == lost_before(damaged, total, total)
            &&& last.good_bytes == total - last.bad_bytes
            &&& last.bad_blocks == lossy_blocks(damaged, total, blocks_of(total))
        }),
    decreases run.total - run.pos,
{
    let total = run.total as int;
    let (image, last) = cloned(source, damaged, run);
    let wanted = image_bytes(source, damaged, total, run.pos as int, total);
    if run.pos < run.total {
        let block = run.block();
        assert(block.well_formed());
        assert(is_aligned(block, total));
        law_block_holds_all_that_can_be_read(source, damaged, total, block);
        let whole = completed(source, damaged, block);
        let after = run.after(whole);
        lemma_lost_bounds(damaged, total, run.pos as int, run.pos + block.len);
        let k = run.pos as int / BLOCK as int;
        assert(blocks_of(run.pos as int) == k && blocks_of(run.pos + block.len) == k + 1);
        lemma_loss_shows(damaged, total, run.pos as int, run.pos + block.len);
        assert((whole.bad > 0) == has_loss(damaged, total, k)) by {
            if has_loss(damaged, total, k) {
                let p = choose|p: int|
                    k * BLOCK <= p < (k + 1) * BLOCK && p < total && #[trigger] is_lost(
                        damaged,
                        total,
                        p,
                    );
                assert(run.pos <= p < run.pos + block.len);
            }
        }
        assert(after.well_formed());
        lemma_rest_is_cloned(source, damaged, after);
        assert(image =~= wanted);
    } else {
        assert(image =~= wanted);
    }
}

/// Places that cannot be read are counted where there are any.
proof fn lemma_loss_shows(damaged: Set<int>, total: int, from: int, to: int)
    requires
        0 <= from <= to,
    ensures
        lost_before(damaged, total, to) > lost_before(damaged, total, from) <==> exists|p: int|
            from <= p < to && #[trigger] is_lost(damaged, total, p),
        lost_before(damaged, total, to) >= lost_before(damaged, total, from),
    decreases to - from,
{
    if from < to {
        lemma_loss_shows(damaged, total, from, to - 1);
        if is_lost(damaged, total, to - 1) {
            assert(from <= to - 1 < to);
        } else {
            assert forall|p: int| from <= p < to && #[trigger] is_lost(damaged, total, p) implies p
                < to - 1 by {}
        }
    }
}

proof fn lemma_lost_bounds(damaged: Set<int>, total: int, from: int, to: int)
    requires
        0 <= from <= to,
    ensures
        0 <= lost_before(damaged, total, to) - lost_before(damaged, total, from) <= to - from,
    decreases to - from,
{
    if from < to {
        lemma_lost_bounds(damaged, total, from, to - 1);
    }
}

/// Whether a place can take the image: it is not there yet, or it is a plain file. A link or a
/// device there could lead the copy onto a disk.
pub fn accepts_image(is_there: bool, is_symlink: bool, is_device: bool) -> (ok: bool)
    ensures
        ok == !(is_there && (is_symlink || is_device)),
{
    !(is_there && (is_symlink || is_device))
}

/// Text that sums a copy up.
pub open spec fn summary_of(result: CloneResult) -> Seq<char> {
    let cancelled = if result.cancelled {
        "  ⏹️  Cancelaste el clonado. La copia parcial quedó guardada y se puede escanear igual.\n"@
    } else {
        ""@
    };
    let damaged = if result.bad_bytes > 0 {
        "\n  ⚠️  "@ + util::size_text(result.bad_bytes as nat)
            + " no se pudieron leer (sectores dañados en "@ + text::decimal(
            result.bad_blocks as nat,
        )
            + " zona/s) y quedaron en blanco en la imagen.\n     Es normal en un disco que está fallando; lo que sí se pudo leer está a salvo en la imagen."@
    } else {
        ""@
    };
    cancelled + "  📀 Imagen creada: "@ + result.output_path@ + "\n     Tamaño: "@
        + util::size_text(result.total_bytes as nat) + " — copiado correctamente: "@
        + util::size_text(result.good_bytes as nat) + damaged
}

impl CloneResult {
    /// Text that sums this copy up.
    pub fn summary(&self) -> (shown: String)
        ensures
            shown@ == summary_of(*self),
    {
        proof {
            reveal_strlit("");
        }
        let mut shown = text::owned(
            if self.cancelled {
                "  ⏹️  Cancelaste el clonado. La copia parcial quedó guardada y se puede escanear igual.\n"
            } else {
                ""
            },
        );
        shown.append("  📀 Imagen creada: ");
        shown.append(self.output_path.as_str());
        shown.append("\n     Tamaño: ");
        shown.append(util::format_size(self.total_bytes).as_str());
        shown.append(" — copiado correctamente: ");
        shown.append(util::format_size(self.good_bytes).as_str());
        if self.bad_bytes > 0 {
            shown.append("\n  ⚠️  ");
            shown.append(util::format_size(self.bad_bytes).as_str());
            shown.append(" no se pudieron leer (sectores dañados en ");
            text::push_decimal(&mut shown, self.bad_blocks);
            shown.append(
                " zona/s) y quedaron en blanco en la imagen.\n     Es normal en un disco que está fallando; lo que sí se pudo leer está a salvo en la imagen.",
            );
        }
        assert(shown@ =~= summary_of(*self));
        shown
    }
}

/// What goes to the image is what is counted. The bytes that a read gave are good, and what is
/// missing behind them is filled up without being counted as damage. A sector that cannot be read is
/// filled up and counted as bad. A block that cannot be read as a whole puts nothing in the image, and
/// is read again by sectors of 512 bytes.
pub proof fn law_reads_are_counted_as_they_came_out(copy: BlockCopy, count: usize)
    requires
        copy.well_formed(),
        copy.done < copy.len,
        count <= copy.wanted(),
    ensures
        ({
            let (part, after) = (copy.part_of(Some(count)), copy.after(Some(count)));
            &&& part.data == count
            &&& part.data + part.zeros == copy.wanted() == after.done - copy.done
            &&& after.good == copy.good + count
            &&& after.bad == copy.bad
        }),
        ({
            let (part, after) = (copy.part_of(None), copy.after(None));
            &&& part.data == 0
            &&& part.zeros == after.done - copy.done == after.bad - copy.bad
            &&& after.good == copy.good
            &&& after.by_sector
            &&& !copy.by_sector ==> part.zeros == 0 && after.wanted() == if copy.len - copy.done
                > 512 {
                512
            } else {
                copy.len - copy.done
            }
            &&& copy.by_sector ==> 0 < part.zeros <= 512
        }),
{
}

/// A source is copied in blocks of one megabyte, one behind the other, and the last takes what is
/// left. A block is first read as a whole.
pub proof fn law_blocks_follow_each_other(run: CloneRun, whole: BlockCopy)
    requires
        run.well_formed(),
        run.pos < run.total,
        whole.len == run.block().len,
        whole.good + whole.bad <= whole.len,
    ensures
        ({
            let (block, after) = (run.block(), run.after(whole));
            &&& block.start == run.pos
            &&& block.wanted() == block.len
            &&& block.len == if run.total - run.pos > 1_048_576 {
                1_048_576
            } else {
                run.total - run.pos
            }
            &&& after.pos == run.pos + block.len
            &&& after.total == run.total
            &&& after.good_bytes - run.good_bytes == whole.good
            &&& after.bad_bytes - run.bad_bytes == whole.bad
            &&& after.bad_blocks - run.bad_blocks == if whole.bad > 0 { 1int } else { 0int }
        }),
{
}

} // verus!
