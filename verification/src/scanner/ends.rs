//! What can be concluded about the end of a file by reading on from its header.

use vstd::prelude::*;

use crate::scanner::found::{self, FoundFile, Integrity};

verus! {

/// Conclusion about the end of a file.
#[derive(Debug, Clone, Copy, PartialEq, Eq, Structural)]
pub enum EndResult {
    /// The file closes after this many bytes.
    Size(u64),
    /// The file really reaches this far, but its last part is missing.
    SizeUnverified(u64),
    /// The file reaches this far at least, by assumption only. It is worth saving, but it must
    /// not count as a container of others.
    SizeGuess(u64),
    /// The bytes describe no such file.
    Rejected,
    /// The source could not be read, or the user cancelled. The file may well be a real one.
    Unreadable,
}

/// A find with what was concluded about its end.
pub open spec fn concluded(file: FoundFile, result: EndResult) -> FoundFile {
    match result {
        EndResult::Size(size) => FoundFile { size: size, footer_found: true, ..file },
        EndResult::SizeUnverified(size) => FoundFile {
            size: size,
            footer_found: true,
            end_unknown: true,
            ..file
        },
        EndResult::SizeGuess(size) => FoundFile { size: size, end_unknown: true, ..file },
        EndResult::Unreadable => FoundFile { end_unknown: true, ..file },
        EndResult::Rejected => file,
    }
}

/// A find with what was concluded about its end.
pub fn conclude(file: FoundFile, result: EndResult) -> (settled: FoundFile)
    ensures
        settled == concluded(file, result),
{
    match result {
        EndResult::Size(size) => FoundFile { size, footer_found: true, ..file },
        EndResult::SizeUnverified(size) => FoundFile {
            size,
            footer_found: true,
            end_unknown: true,
            ..file
        },
        EndResult::SizeGuess(size) => FoundFile { size, end_unknown: true, ..file },
        EndResult::Unreadable => FoundFile { end_unknown: true, ..file },
        EndResult::Rejected => file,
    }
}

/// Only an extent that was really read makes a file trusted; an assumed size, a rejection and a
/// failed read do not.
pub proof fn law_assumed_sizes_are_not_trusted(file: FoundFile, result: EndResult)
    requires
        !file.footer_found,
    ensures
        concluded(file, result).footer_found <==> result is Size || result is SizeUnverified,
        concluded(file, result).offset == file.offset,
        concluded(file, result).signature == file.signature,
        concluded(file, result).index == file.index,
{
}

/// A size that was concluded, however sure, becomes the size of the file; without one the file keeps
/// its own. The end stays open where the last part is missing, where the size is assumed and where the
/// source could not be read.
pub proof fn law_conclusions_settle_the_size(file: FoundFile, size: u64)
    ensures
        concluded(file, EndResult::Size(size)).size == size,
        concluded(file, EndResult::SizeUnverified(size)).size == size,
        concluded(file, EndResult::SizeGuess(size)).size == size,
        concluded(file, EndResult::Unreadable).size == file.size,
        concluded(file, EndResult::Rejected) == file,
        concluded(file, EndResult::Size(size)).end_unknown == file.end_unknown,
        concluded(file, EndResult::SizeUnverified(size)).end_unknown,
        concluded(file, EndResult::SizeGuess(size)).end_unknown,
        concluded(file, EndResult::Unreadable).end_unknown,
{
}

/// Of a format whose end can be found, a file that closed is intact, one that was seen not to close is
/// suspect, and of one whose end stays open nothing is said.
pub proof fn law_conclusions_decide_on_trust(file: FoundFile, size: u64)
    requires
        found::end_detectable(file.signature),
        !file.footer_found,
        !file.end_unknown,
    ensures
        found::integrity_of(concluded(file, EndResult::Size(size))) == Integrity::Intact,
        found::integrity_of(concluded(file, EndResult::SizeUnverified(size)))
            == Integrity::Unverifiable,
        found::integrity_of(concluded(file, EndResult::SizeGuess(size))) == Integrity::Unverifiable,
        found::integrity_of(concluded(file, EndResult::Unreadable)) == Integrity::Unverifiable,
        found::integrity_of(concluded(file, EndResult::Rejected)) == Integrity::Suspect,
{
}

} // verus!
