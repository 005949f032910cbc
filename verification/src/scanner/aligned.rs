//! Reads that start and end at sector borders.
//!
//! A raw device takes no other reads. The bytes asked for may start anywhere, so the read starts
//! a little earlier and ends a little later, and what is too much is thrown away.

use vstd::prelude::*;

verus! {

/// Size of a sector.
pub const SECTOR: u64 = 512;

/// Bytes read to look at the header of a box.
pub const ISOBMFF_HEADER_READ: usize = 16;

/// Where and how much to read, and where in it the wanted bytes start.
#[derive(Debug, Clone, Copy, PartialEq, Eq, Structural)]
pub struct AlignedRead {
    pub position: u64,
    pub length: usize,
    pub skew: usize,
}

/// Length of the read for `want` bytes behind `skew`: up to the next sector border, but no more
/// whole sectors than the buffer holds.
pub open spec fn aligned_length(skew: int, want: int, buffer_len: int) -> int {
    let rounded = ((skew + want + 511) / 512) * 512;
    let whole = (buffer_len / 512) * 512;
    if rounded <= whole { rounded } else { whole }
}

/// The read that serves a request for `want` bytes at `offset` with a buffer of `buffer_len`.
pub open spec fn aligned_read_spec(offset: int, want: int, buffer_len: int) -> AlignedRead {
    AlignedRead {
        position: (offset - offset % 512) as u64,
        length: aligned_length(offset % 512, want, buffer_len) as usize,
        skew: (offset % 512) as usize,
    }
}

/// How many of the bytes read were asked for.
pub open spec fn useful_spec(read: int, skew: int, want: int) -> int {
    let behind = if read >= skew { read - skew } else { 0 };
    if behind <= want { behind } else { want }
}

/// Plans the read for `want` bytes at `offset`. Both its position and its length are multiples of
/// a sector. It covers the request where the buffer is made of whole sectors and holds one more
/// than asked for.
pub fn plan_aligned_read(offset: u64, want: usize, buffer_len: usize) -> (plan: AlignedRead)
    requires
        want + 1024 <= usize::MAX,
    ensures
        plan == aligned_read_spec(offset as int, want as int, buffer_len as int),
        plan.position % 512 == 0,
        plan.length % 512 == 0,
        plan.length <= buffer_len,
        plan.position + plan.skew == offset,
        want + 512 <= buffer_len && buffer_len % 512 == 0 ==> plan.skew + want <= plan.length,
{
    let skew: usize = (offset % SECTOR) as usize;
    let position: u64 = offset - skew as u64;
    let rounded: usize = ((skew + want + 511) / 512) * 512;
    let whole: usize = (buffer_len / 512) * 512;
    let length: usize = if rounded <= whole { rounded } else { whole };
    AlignedRead { position, length, skew }
}

/// How many of the `read` bytes that a planned read gave were asked for; they start behind
/// `skew`.
pub fn useful_bytes(read: usize, skew: usize, want: usize) -> (useful: usize)
    ensures
        useful == useful_spec(read as int, skew as int, want as int),
{
    let behind: usize = if read >= skew { read - skew } else { 0 };
    if behind <= want {
        behind
    } else {
        want
    }
}

/// A planned read of a source gives exactly the bytes asked for, as far as the source goes.
pub proof fn law_aligned_reads_give_the_request(
    source: Seq<u8>,
    offset: int,
    want: int,
    buffer_len: int,
)
    requires
        0 <= offset <= u64::MAX,
        0 <= want,
        want + 512 <= buffer_len <= usize::MAX,
        buffer_len % 512 == 0,
    ensures
        ({
            let plan = aligned_read_spec(offset, want, buffer_len);
            let from = if plan.position <= source.len() {
                plan.position as int
            } else {
                source.len() as int
            };
            let to = if plan.position + plan.length <= source.len() {
                plan.position + plan.length
            } else {
                source.len() as int
            };
            let read = source.subrange(from, to);
            let useful = useful_spec(read.len() as int, plan.skew as int, want);
            let here = if offset <= source.len() { offset } else { source.len() as int };
            let stop = if offset + want <= source.len() { offset + want } else { source.len() as int };
            &&& useful == stop - here
            &&& useful > 0 ==> read.subrange(plan.skew as int, plan.skew + useful)
                == source.subrange(here, stop)
        }),
{
    let plan = aligned_read_spec(offset, want, buffer_len);
    let from = if plan.position <= source.len() { plan.position as int } else { source.len() as int };
    let to = if plan.position + plan.length <= source.len() {
        plan.position + plan.length
    } else {
        source.len() as int
    };
    let read = source.subrange(from, to);
    let useful = useful_spec(read.len() as int, plan.skew as int, want);
    let here = if offset <= source.len() { offset } else { source.len() as int };
    let stop = if offset + want <= source.len() { offset + want } else { source.len() as int };
    if useful > 0 {
        assert(read.subrange(plan.skew as int, plan.skew + useful) =~= source.subrange(here, stop));
    }
}

} // verus!
