//! Office documents (DOCX, XLSX, PPTX): ZIP packages told apart by their main part.
//!
//! The header of a ZIP is repeated by every entry inside it, so it does not tell where a file
//! starts. The record at its end does: it names the place and the size of the central directory,
//! counted from the start of the file, and both together lead exactly to the record itself.

use vstd::prelude::*;
use vstd::utf8::*;

use crate::bytes;

verus! {

broadcast use vstd::slice::group_slice_axioms;

/// Bytes that open the record at the end of a ZIP.
pub open spec fn end_record_mark() -> Seq<u8> {
    seq![0x50u8, 0x4Bu8, 0x05u8, 0x06u8]
}

/// The end record of the ZIP that starts `data` stands at `at`: its central directory ends there.
pub open spec fn zip_closes_at(data: Seq<u8>, at: int) -> bool {
    &&& 0 <= at
    &&& at + 22 <= data.len()
    &&& bytes::pattern_at(data, at, end_record_mark())
    &&& bytes::le32(data, at + 16) + bytes::le32(data, at + 12) == at
}

/// First place from `from` on where the ZIP that starts `data` has its end record.
pub open spec fn first_zip_close(data: Seq<u8>, from: int) -> Option<int>
    decreases data.len() - from,
{
    if from + 22 > data.len() {
        None
    } else if zip_closes_at(data, from) {
        Some(from)
    } else {
        first_zip_close(data, from + 1)
    }
}

/// Length of the ZIP that starts `data`: through its first end record and the comment behind it,
/// if both are there.
pub open spec fn zip_end(data: Seq<u8>) -> Option<int> {
    match first_zip_close(data, 0) {
        Some(at) => {
            let end = at + 22 + bytes::le16(data, at + 20);
            if end <= data.len() { Some(end) } else { None }
        },
        None => None,
    }
}

/// Name of the entry whose header starts `data`, if all of it is there.
pub open spec fn entry_name(data: Seq<u8>) -> Option<Seq<u8>> {
    if data.len() < 30 || 30 + bytes::le16(data, 26) > data.len() {
        None
    } else {
        Some(data.subrange(30, 30 + bytes::le16(data, 26)))
    }
}

/// The names that producers give to the first entry of an office package: the table of contents,
/// the relationships of the package, or those of its workbook.
pub open spec fn is_first_part_name(name: Seq<u8>) -> bool {
    ||| name == encode_utf8("[Content_Types].xml"@)
    ||| name == encode_utf8("_rels/.rels"@)
    ||| name == encode_utf8("xl/_rels/workbook.xml.rels"@)
}

/// `data` starts an office package whose main part is called `part`.
pub open spec fn package_has_part(data: Seq<u8>, part: Seq<u8>) -> bool {
    &&& entry_name(data) matches Some(name) && is_first_part_name(name)
    &&& zip_end(data) matches Some(end) && exists|at: int| #[trigger]
        bytes::pattern_at(data.take(end), at, part)
}

/// `data` starts a Word document.
pub open spec fn docx_ok(data: Seq<u8>) -> bool {
    package_has_part(data, encode_utf8("word/document.xml"@))
}

/// `data` starts an Excel workbook.
pub open spec fn xlsx_ok(data: Seq<u8>) -> bool {
    package_has_part(data, encode_utf8("xl/workbook.xml"@))
}

/// `data` starts a PowerPoint presentation.
pub open spec fn pptx_ok(data: Seq<u8>) -> bool {
    package_has_part(data, encode_utf8("ppt/presentation.xml"@))
}

/// The record found is a real one, nothing before it is, and the length covers it.
pub proof fn law_zip_end_is_its_own(data: Seq<u8>, from: int)
    requires
        0 <= from,
    ensures
        first_zip_close(data, from) matches Some(at) ==> {
            &&& from <= at
            &&& zip_closes_at(data, at)
            &&& forall|p: int| from <= p < at ==> !zip_closes_at(data, p)
        },
        first_zip_close(data, from) is None ==> forall|p: int|
            from <= p ==> !zip_closes_at(data, p),
    decreases data.len() - from,
{
    if from + 22 <= data.len() && !zip_closes_at(data, from) {
        law_zip_end_is_its_own(data, from + 1);
    }
}

/// What follows a document does not change its length, and does not lend it a main part: the
/// document next to it is never taken for a part of this one.
pub proof fn law_following_bytes_do_not_matter(data: Seq<u8>, more: Seq<u8>, part: Seq<u8>)
    requires
        zip_end(data) is Some,
        entry_name(data) is Some,
    ensures
        zip_end(data + more) == zip_end(data),
        package_has_part(data + more, part) == package_has_part(data, part),
{
    let both = data + more;
    lemma_first_close_extends(data, more, 0);
    let end = zip_end(data)->0;
    law_zip_end_is_its_own(data, 0);
    assert(both.take(end) =~= data.take(end));
    assert(entry_name(both)->0 =~= entry_name(data)->0);
}

proof fn lemma_first_close_extends(data: Seq<u8>, more: Seq<u8>, from: int)
    requires
        0 <= from,
        first_zip_close(data, from) is Some,
    ensures
        first_zip_close(data + more, from) == first_zip_close(data, from),
    decreases data.len() - from,
{
    let both = data + more;
    assert(zip_closes_at(both, from) == zip_closes_at(data, from)) by {
        let mark = end_record_mark();
        if bytes::pattern_at(both, from, mark) {
            assert forall|k: int| 0 <= k < mark.len() implies data[from + k] == #[trigger] mark[k] by {
                assert(both[from + k] == mark[k]);
            }
        }
    }
    if !zip_closes_at(data, from) {
        lemma_first_close_extends(data, more, from + 1);
    }
}

/// Length of the ZIP that starts `data`, or `None` where its end record is not there.
pub fn zip_local_file_end(data: &[u8]) -> (end: Option<usize>)
    ensures
        end is Some <==> zip_end(data@) is Some,
        end matches Some(n) ==> zip_end(data@) == Some(n as int) && n <= data@.len(),
{
    let mark: [u8; 4] = [0x50, 0x4B, 0x05, 0x06];
    assert(mark@ =~= end_record_mark());
    let mut at: usize = 0;
    while at <= data.len() && data.len() - at >= 22
        invariant
            at <= data.len(),
            mark@ == end_record_mark(),
            first_zip_close(data@, 0) == first_zip_close(data@, at as int),
        decreases data@.len() - at,
    {
        if bytes::matches_at(data, at, &mark) {
            let size: u64 = bytes::read_le32(data, at + 12) as u64;
            let offset: u64 = bytes::read_le32(data, at + 16) as u64;
            if offset + size == at as u64 {
                let comment: usize = bytes::read_le16(data, at + 20) as usize;
                if comment > data.len() - at - 22 {
                    return None;
                }
                return Some(at + 22 + comment);
            }
        }
        at = at + 1;
    }
    None
}

/// Whether the entry that starts `data` has a name that opens an office package. This is cheap,
/// and spares the search for the end record at most of the inner entries.
pub fn ooxml_local_name_is_start(data: &[u8]) -> (yes: bool)
    ensures
        yes == (entry_name(data@) matches Some(name) && is_first_part_name(name)),
{
    if data.len() < 30 {
        return false;
    }
    let len: usize = bytes::read_le16(data, 26) as usize;
    if len > data.len() - 30 {
        return false;
    }
    let name = vstd::slice::slice_subrange(data, 30, 30 + len);
    is_name(name, "[Content_Types].xml") || is_name(name, "_rels/.rels") || is_name(
        name,
        "xl/_rels/workbook.xml.rels",
    )
}

fn is_name(name: &[u8], wanted: &str) -> (yes: bool)
    ensures
        yes == (name@ == encode_utf8(wanted@)),
{
    let pattern = wanted.as_bytes();
    let yes = name.len() == pattern.len() && bytes::matches_at(name, 0, pattern);
    proof {
        if yes {
            assert(name@ =~= pattern@);
        }
        if name@ == pattern@ {
            assert(bytes::pattern_at(name@, 0, pattern@));
        }
    }
    yes
}

/// Whether `data` starts an office package whose main part is called `part`.
pub fn ooxml_has_part(data: &[u8], part: &[u8]) -> (yes: bool)
    ensures
        yes == package_has_part(data@, part@),
{
    if !ooxml_local_name_is_start(data) {
        return false;
    }
    match zip_local_file_end(data) {
        None => false,
        Some(end) => {
            let own = vstd::slice::slice_subrange(data, 0, end);
            assert(own@ =~= data@.take(end as int));
            let found = bytes::contains_pattern(own, part);
            proof {
                let whole = zip_end(data@)->0;
                assert(found == exists|at: int| #[trigger]
                    bytes::pattern_at(data@.take(whole), at, part@));
            }
            found
        },
    }
}

/// Accepts the start of a Word document.
pub fn validate_ooxml_docx(data: &[u8]) -> (ok: bool)
    ensures
        ok == docx_ok(data@),
{
    ooxml_has_part(data, "word/document.xml".as_bytes())
}

/// Accepts the start of an Excel workbook.
pub fn validate_ooxml_xlsx(data: &[u8]) -> (ok: bool)
    ensures
        ok == xlsx_ok(data@),
{
    ooxml_has_part(data, "xl/workbook.xml".as_bytes())
}

/// Accepts the start of a PowerPoint presentation.
pub fn validate_ooxml_pptx(data: &[u8]) -> (ok: bool)
    ensures
        ok == pptx_ok(data@),
{
    ooxml_has_part(data, "ppt/presentation.xml".as_bytes())
}

/// The letters `PK` and the numbers 5 and 6 stand at `at`, and the directory that the record there
/// speaks of ends where the record starts.
pub open spec fn closes_at(data: Seq<u8>, at: int) -> bool {
    &&& data[at] as char == 'P'
    &&& data[at + 1] as char == 'K'
    &&& data[at + 2] == 5
    &&& data[at + 3] == 6
    &&& bytes::le32(data, at + 12) + bytes::le32(data, at + 16) == at
}

/// A package ends with the first record that closes it and the comment that the record announces. A
/// record whose directory lies elsewhere belongs to another package, and a comment that is cut off
/// leaves the end open.
pub proof fn law_packages_end_with_their_record(data: Seq<u8>, at: int)
    requires
        0 <= at,
        at + 22 <= data.len(),
        closes_at(data, at),
        forall|p: int| 0 <= p < at ==> !#[trigger] closes_at(data, p),
    ensures
        ({
            let end = at + 22 + bytes::le16(data, at + 20);
            zip_end(data) == if end <= data.len() { Some(end) } else { None }
        }),
{
    lemma_first_close(data, at, 0);
}

proof fn lemma_closes(data: Seq<u8>, at: int)
    requires
        0 <= at,
        at + 22 <= data.len(),
    ensures
        zip_closes_at(data, at) == closes_at(data, at),
{
    let mark = end_record_mark();
    assert(mark[0] == 0x50 && mark[1] == 0x4B && mark[2] == 5 && mark[3] == 6);
    if bytes::pattern_at(data, at, mark) {
        assert(data[at + 0] == mark[0] && data[at + 1] == mark[1] && data[at + 2] == mark[2]
            && data[at + 3] == mark[3]);
    }
}

proof fn lemma_first_close(data: Seq<u8>, at: int, from: int)
    requires
        0 <= from <= at,
        at + 22 <= data.len(),
        closes_at(data, at),
        forall|p: int| 0 <= p < at ==> !#[trigger] closes_at(data, p),
    ensures
        first_zip_close(data, from) == Some(at),
    decreases at - from,
{
    lemma_closes(data, from);
    if from < at {
        assert(!closes_at(data, from));
        lemma_first_close(data, at, from + 1);
    }
}

/// An office document is told by the name of its main part, which stands somewhere before its end,
/// and by the name of its first entry, which stands in the entry's header.
pub proof fn law_documents_are_told_by_their_parts(data: Seq<u8>, end: int, at: int, name: Seq<u8>)
    requires
        zip_end(data) == Some(end),
        data.len() >= 30,
        name.len() == bytes::le16(data, 26),
        30 + name.len() <= data.len(),
        data.subrange(30, 30 + name.len() as int) == name,
        name == encode_utf8("[Content_Types].xml"@) || name == encode_utf8("_rels/.rels"@) || name
            == encode_utf8("xl/_rels/workbook.xml.rels"@),
    ensures
        bytes::pattern_at(data.take(end), at, encode_utf8("word/document.xml"@)) ==> docx_ok(data),
        bytes::pattern_at(data.take(end), at, encode_utf8("xl/workbook.xml"@)) ==> xlsx_ok(data),
        bytes::pattern_at(data.take(end), at, encode_utf8("ppt/presentation.xml"@)) ==> pptx_ok(
            data,
        ),
{
    if bytes::pattern_at(data.take(end), at, encode_utf8("word/document.xml"@)) {
        lemma_has_part(data, end, at, name, encode_utf8("word/document.xml"@));
    }
    if bytes::pattern_at(data.take(end), at, encode_utf8("xl/workbook.xml"@)) {
        lemma_has_part(data, end, at, name, encode_utf8("xl/workbook.xml"@));
    }
    if bytes::pattern_at(data.take(end), at, encode_utf8("ppt/presentation.xml"@)) {
        lemma_has_part(data, end, at, name, encode_utf8("ppt/presentation.xml"@));
    }
}

proof fn lemma_has_part(data: Seq<u8>, end: int, at: int, name: Seq<u8>, part: Seq<u8>)
    requires
        zip_end(data) == Some(end),
        entry_name(data) == Some(name),
        is_first_part_name(name),
        bytes::pattern_at(data.take(end), at, part),
    ensures
        package_has_part(data, part),
{
    let whole = zip_end(data)->0;
    assert(bytes::pattern_at(data.take(whole), at, part));
    let found = exists|p: int| #[trigger] bytes::pattern_at(data.take(whole), p, part);
    assert(found);
    assert(zip_end(data) matches Some(last) && exists|p: int| #[trigger]
        bytes::pattern_at(data.take(last), p, part));
    assert(entry_name(data) matches Some(first) && is_first_part_name(first));
}

} // verus!
