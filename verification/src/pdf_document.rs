//! PDF documents in memory, as the `qpdf` crate reads, changes and writes them.
//!
//! A page stands in these contracts as a pair: the number of its object in the
//! document, and a number for what the page holds. Two pages hold the same when
//! their dictionaries, with the attributes they inherit, describe the same page,
//! apart from their place in a page tree and from what in them refers to other
//! pages (to dictionaries that say they are one).
//!
//! Not every file is written as it was read. What a damaged file holds can depend
//! on the order in which `qpdf` looks at its objects, as it rebuilds the
//! cross-reference table; an encrypted file is encrypted anew, with what its
//! dictionary says of the key; and a catalog that is no object of its own is
//! taken for others. The numbers of the pages of such a file tell them apart by
//! their places, and nothing is said of what is written of them.
use vstd::prelude::*;

use qpdf::{QPdf, QPdfDictionary};

verus! {

/// The document type of the `qpdf` crate.
#[verifier::external_type_specification]
#[verifier::external_body]
pub struct ExQPdf(qpdf::QPdf);

/// The dictionary type of the `qpdf` crate; here always a page.
#[verifier::external_type_specification]
#[verifier::external_body]
pub struct ExQPdfDictionary(qpdf::QPdfDictionary);

// ---------------------------------------------------------------------------
// Files
// ---------------------------------------------------------------------------

/// What `qpdf::QPdf::read_from_memory` says is wrong with `bytes`, where it
/// refuses them.
pub uninterp spec fn pdf_error(bytes: Seq<u8>) -> Option<Seq<char>>;

/// What `qpdf::QPdf::get_pages` says is wrong with the page tree of the document
/// in `bytes`, right after that was read, where it cannot walk the tree.
pub uninterp spec fn pages_error(bytes: Seq<u8>) -> Option<Seq<char>>;

/// The texts with which `qpdf` can refuse the first change to the pages of the
/// document in `bytes`, once these were listed: it does where the file counts
/// its pages wrongly.
pub uninterp spec fn tree_faults(bytes: Seq<u8>) -> Set<Seq<char>>;

/// Whether the file in `bytes` is out of the ordinary: its cross-reference table
/// is damaged, so that `qpdf` rebuilds it at some time, or it is encrypted, or its
/// catalog stands in the trailer itself.
pub uninterp spec fn irregular(bytes: Seq<u8>) -> bool;

/// What the pages of the document in `bytes` hold, in order.
pub uninterp spec fn pdf_pages(bytes: Seq<u8>) -> Seq<int>;

/// What the document in `bytes` holds beside its pages: its catalog (with the
/// outline, the names, the form) and its information dictionary, apart from what
/// in them is part of the page tree, from what refers to pages, and from the
/// version and the extensions of the format. A document that holds nothing there
/// has the number 0.
pub uninterp spec fn pdf_rest(bytes: Seq<u8>) -> int;

/// The texts with which `qpdf` can refuse to copy such a page, of a document
/// made from `files`, into another document.
pub uninterp spec fn copy_faults(files: Set<Seq<u8>>, page: int) -> Set<Seq<char>>;

/// The texts with which `qpdf::QPdfWriter::write_to_memory` can refuse to write a
/// document made from `files` that has the pages `pages`.
pub uninterp spec fn writing_faults(files: Set<Seq<u8>>, pages: Seq<int>) -> Set<Seq<char>>;

/// The file that `qpdf::QPdfWriter::write_to_memory` makes of a document made from
/// `files` that has the pages `pages`, and `beside` beside them. What else decides
/// (the clock, chance, and by which calls the document came to be) is `drawn`.
pub uninterp spec fn written_file(
    files: Set<Seq<u8>>,
    pages: Seq<int>,
    beside: int,
    drawn: Seq<u8>,
) -> Seq<u8>;

/// What `qpdf::QPdfWriter::write_to_memory` says where it refuses to write the
/// document in `bytes`, as it was read, with compressed streams and with object
/// streams.
pub uninterp spec fn compress_error(bytes: Seq<u8>) -> Option<Seq<char>>;

/// The file that `qpdf::QPdfWriter::write_to_memory` makes of the document in
/// `bytes`, as it was read, with compressed streams and with object streams.
/// What it draws from the clock and from chance (an identifier, and what an
/// encrypted file starts from) is `drawn`.
pub uninterp spec fn compressed_file(bytes: Seq<u8>, drawn: Seq<u8>) -> Seq<u8>;

// ---------------------------------------------------------------------------
// Documents
// ---------------------------------------------------------------------------

/// Which document it is.
pub uninterp spec fn number(doc: QPdf) -> int;

/// The file that a document was read from, where nothing was done with the
/// document since.
pub uninterp spec fn source(doc: QPdf) -> Option<Seq<u8>>;

/// The files that a document was made from.
pub uninterp spec fn files(doc: QPdf) -> Set<Seq<u8>>;

/// Whether no call on the document has failed.
pub uninterp spec fn intact(doc: QPdf) -> bool;

/// Whether the page tree of a document has been walked, or is one that `qpdf`
/// made.
pub uninterp spec fn walked(doc: QPdf) -> bool;

/// The pages of a document, in order.
pub uninterp spec fn page_list(doc: QPdf) -> Seq<(int, int)>;

/// What a document holds beside its pages.
pub uninterp spec fn rest(doc: QPdf) -> int;

/// What is wrong with the page tree of a document, where it cannot be walked.
pub uninterp spec fn page_tree_error(doc: QPdf) -> Option<Seq<char>>;

/// The texts with which `qpdf` can refuse the next change to the pages of a
/// document whose page tree has been walked.
pub uninterp spec fn change_faults(doc: QPdf) -> Set<Seq<char>>;

/// The page that a page dictionary stands for.
pub uninterp spec fn page_entry(page: QPdfDictionary) -> (int, int);

/// The document that a page belongs to.
pub uninterp spec fn owner(page: QPdfDictionary) -> int;

/// The files that the document of a page was made from.
pub uninterp spec fn page_files(page: QPdfDictionary) -> Set<Seq<u8>>;

/// What the pages of a list hold.
pub open spec fn contents(pages: Seq<(int, int)>) -> Seq<int> {
    pages.map_values(|p: (int, int)| p.1)
}

/// The pages that a list of page dictionaries stands for.
pub open spec fn entries(pages: Seq<QPdfDictionary>) -> Seq<(int, int)> {
    pages.map_values(|p: QPdfDictionary| page_entry(p))
}

/// Whether no object stands in a page list twice.
pub open spec fn distinct(pages: Seq<(int, int)>) -> bool {
    forall|i: int, j: int|
        #![trigger pages[i], pages[j]]
        0 <= i < j < pages.len() ==> pages[i].0 != pages[j].0
}

/// Whether none of the files is irregular.
pub open spec fn sound(files: Set<Seq<u8>>) -> bool {
    forall|f: Seq<u8>| #[trigger] files.contains(f) ==> !irregular(f)
}

/// Whether a document can be changed: its page tree has been walked, and no call
/// on it has failed.
pub open spec fn ready(doc: QPdf) -> bool {
    intact(doc) && walked(doc) && page_tree_error(doc) is None
}

/// Whether two values are the same document, with the same pages and the same
/// beside them, whose page tree can be walked.
pub open spec fn looked_at(before: QPdf, after: QPdf) -> bool {
    &&& number(after) == number(before)
    &&& files(after) == files(before)
    &&& page_list(after) == page_list(before)
    &&& distinct(page_list(after))
    &&& rest(after) == rest(before)
    &&& change_faults(after) == change_faults(before)
    &&& page_tree_error(before) is None
    &&& page_tree_error(after) is None
    &&& intact(after)
}

/// Whether two values are the same document with the same beside its pages, only
/// that `after` was changed, so that further changes find no fault in its tree;
/// a sound document had none before either.
pub open spec fn changed(before: QPdf, after: QPdf) -> bool {
    &&& number(after) == number(before)
    &&& rest(after) == rest(before)
    &&& ready(after)
    &&& change_faults(after) == Set::<Seq<char>>::empty()
    &&& sound(files(before)) ==> change_faults(before) == Set::<Seq<char>>::empty()
}

/// `qpdf::QPdf::read_from_memory`: a document from the bytes of a PDF file, or
/// the text of its error. Which bytes it refuses, whether the page tree can be
/// walked and changed, and what the document holds, is a matter of the bytes
/// alone.
#[verifier::external_body]
pub(crate) fn read_document(bytes: &[u8]) -> (r: Result<QPdf, String>)
    ensures
        match r {
            Ok(doc) => {
                &&& pdf_error(bytes@) is None
                &&& intact(doc)
                &&& source(doc) == Some(bytes@)
                &&& files(doc) == set![bytes@]
                &&& page_tree_error(doc) == pages_error(bytes@)
                &&& change_faults(doc) == tree_faults(bytes@)
                &&& contents(page_list(doc)) == pdf_pages(bytes@)
                &&& rest(doc) == pdf_rest(bytes@)
            },
            Err(e) => pdf_error(bytes@) == Some(e@),
        },
{
    QPdf::read_from_memory(bytes).map_err(|e| e.to_string())
}

/// `qpdf::QPdf::get_pages`: the pages of a document, in order, each object once
/// (a page that a page tree lists twice is given an object for each place), or
/// the text of the error, where the page tree cannot be walked.
#[verifier::external_body]
pub(crate) fn get_pages(doc: &mut QPdf) -> (r: Result<Vec<QPdfDictionary>, String>)
    requires
        intact(*old(doc)),
    ensures
        match r {
            Ok(pages) => {
                &&& looked_at(*old(doc), *final(doc))
                &&& walked(*final(doc))
                &&& entries(pages@) == page_list(*final(doc))
                &&& forall|i: int|
                    0 <= i < pages@.len() ==> owner(#[trigger] pages@[i]) == number(*final(doc))
                        && page_files(pages@[i]) == files(*final(doc))
            },
            Err(e) => page_tree_error(*old(doc)) == Some(e@),
        },
{
    doc.get_pages().map_err(|e| e.to_string())
}

/// `qpdf::QPdf::get_num_pages`: how many pages a document has, or the text of
/// the error, where the page tree cannot be walked.
#[verifier::external_body]
pub(crate) fn get_num_pages(doc: &mut QPdf) -> (r: Result<u32, String>)
    requires
        intact(*old(doc)),
    ensures
        match r {
            Ok(n) => {
                &&& looked_at(*old(doc), *final(doc))
                &&& walked(*final(doc))
                &&& n == page_list(*final(doc)).len()
            },
            Err(e) => page_tree_error(*old(doc)) == Some(e@),
        },
{
    doc.get_num_pages().map_err(|e| e.to_string())
}

/// `qpdf::QPdf::get_page`: the page at a position, counted from 0; none beyond
/// the last page, and none where the page tree cannot be walked.
#[verifier::external_body]
pub(crate) fn get_page(doc: &mut QPdf, index: u32) -> (r: Option<QPdfDictionary>)
    requires
        intact(*old(doc)),
    ensures
        match r {
            Some(page) => {
                &&& looked_at(*old(doc), *final(doc))
                &&& walked(*final(doc))
                &&& index < page_list(*final(doc)).len()
                &&& page_entry(page) == page_list(*final(doc))[index as int]
                &&& owner(page) == number(*final(doc))
                &&& page_files(page) == files(*final(doc))
            },
            None => page_tree_error(*old(doc)) is Some || index >= page_list(*old(doc)).len(),
        },
{
    doc.get_page(index)
}

/// `qpdf::QPdf::empty`: a document without pages, and with nothing beside them.
#[verifier::external_body]
pub(crate) fn empty_document() -> (doc: QPdf)
    ensures
        ready(doc),
        files(doc) == Set::<Seq<u8>>::empty(),
        page_list(doc) == Seq::<(int, int)>::empty(),
        rest(doc) == 0,
        change_faults(doc) == Set::<Seq<char>>::empty(),
{
    QPdf::empty()
}

/// `qpdf::QPdf::remove_page`: takes a page out of the list of its document. That
/// fails only where the page tree is at fault. It knows a page by a number that
/// each document gives anew, so the page must be one of this document.
#[verifier::external_body]
pub(crate) fn remove_page(doc: &mut QPdf, page: &QPdfDictionary) -> (r: Result<(), String>)
    requires
        ready(*old(doc)),
        owner(*page) == number(*old(doc)),
        page_list(*old(doc)).contains(page_entry(*page)),
    ensures
        match r {
            Ok(_) => {
                &&& changed(*old(doc), *final(doc))
                &&& files(*final(doc)) == files(*old(doc))
                &&& exists|i: int|
                    0 <= i < page_list(*old(doc)).len() && #[trigger] page_list(*old(doc))[i]
                        == page_entry(*page) && page_list(*final(doc)) == page_list(
                        *old(doc),
                    ).remove(i)
            },
            Err(e) => change_faults(*old(doc)).contains(e@),
        },
{
    doc.remove_page(page).map_err(|e| e.to_string())
}

/// `qpdf::QPdf::add_page`: puts a page at the end of the document's list. A
/// page of another document, or one that the list holds already, is copied;
/// the copy holds the same. It fails only where the page tree is at fault, or
/// where the page of another document cannot be copied.
#[verifier::external_body]
pub(crate) fn add_page(doc: &mut QPdf, page: &QPdfDictionary) -> (r: Result<(), String>)
    requires
        ready(*old(doc)),
    ensures
        match r {
            Ok(_) => {
                &&& changed(*old(doc), *final(doc))
                &&& files(*final(doc)) == files(*old(doc)).union(page_files(*page))
                &&& exists|id: int|
                    page_list(*final(doc)) == #[trigger] page_list(*old(doc)).push(
                        (id, page_entry(*page).1),
                    )
            },
            Err(e) => {
                ||| change_faults(*old(doc)).contains(e@)
                ||| owner(*page) != number(*old(doc)) && copy_faults(
                    page_files(*page),
                    page_entry(*page).1,
                ).contains(e@)
            },
        },
{
    doc.add_page(page, false).map_err(|e| e.to_string())
}

/// `qpdf::QPdf::add_page_at`: puts a page right before another page of the
/// document's list. A page of another document, or one that the list holds
/// already, is copied; the copy holds the same, and its object stands in the
/// list once. It fails only where the page tree is at fault, or where the page
/// of another document cannot be copied. It knows the page to stand before by a
/// number that each document gives anew, so that must be one of this document.
#[verifier::external_body]
pub(crate) fn add_page_before(
    doc: &mut QPdf,
    page: &QPdfDictionary,
    next: &QPdfDictionary,
) -> (r: Result<(), String>)
    requires
        ready(*old(doc)),
        owner(*next) == number(*old(doc)),
        page_list(*old(doc)).contains(page_entry(*next)),
    ensures
        match r {
            Ok(_) => {
                &&& changed(*old(doc), *final(doc))
                &&& files(*final(doc)) == files(*old(doc)).union(page_files(*page))
                &&& distinct(page_list(*old(doc))) ==> distinct(page_list(*final(doc)))
                &&& exists|i: int, id: int|
                    0 <= i < page_list(*old(doc)).len() && page_list(*old(doc))[i] == page_entry(
                        *next,
                    ) && page_list(*final(doc)) == #[trigger] page_list(*old(doc)).insert(
                        i,
                        (id, page_entry(*page).1),
                    )
            },
            Err(e) => {
                ||| change_faults(*old(doc)).contains(e@)
                ||| owner(*page) != number(*old(doc)) && copy_faults(
                    page_files(*page),
                    page_entry(*page).1,
                ).contains(e@)
            },
        },
{
    doc.add_page_at(page, true, next).map_err(|e| e.to_string())
}

/// Whether `bytes` read back as a document that holds the same as `doc` beside
/// its pages, and whose pages, where those of `doc` can be listed, can be listed
/// and hold the same. They can be changed where those of `doc` can.
pub open spec fn written(doc: QPdf, bytes: Seq<u8>) -> bool {
    &&& pdf_error(bytes) is None
    &&& pdf_rest(bytes) == rest(doc)
    &&& page_tree_error(doc) is None ==> pages_error(bytes) is None && pdf_pages(bytes) == contents(
        page_list(doc),
    )
    &&& page_tree_error(doc) is None && change_faults(doc) == Set::<Seq<char>>::empty()
        ==> tree_faults(bytes) == Set::<Seq<char>>::empty()
}

/// `qpdf::QPdfWriter::write_to_memory`: the document as the bytes of a PDF
/// file, or the text of the error. Of a document that comes from regular files
/// alone, the file is regular and reads back as the same. What the bytes are is
/// not said beyond what they are made of: they hold an identifier that differs
/// from call to call.
#[verifier::external_body]
pub(crate) fn write_document(doc: QPdf) -> (r: Result<Vec<u8>, String>)
    requires
        intact(doc),
    ensures
        match r {
            Ok(bytes) => {
                &&& exists|drawn: Seq<u8>|
                    bytes@ == #[trigger] written_file(
                        files(doc),
                        contents(page_list(doc)),
                        rest(doc),
                        drawn,
                    )
                &&& sound(files(doc)) ==> !irregular(bytes@) && written(doc, bytes@)
            },
            Err(e) => writing_faults(files(doc), contents(page_list(doc))).contains(e@),
        },
{
    doc.writer().write_to_memory().map_err(|e| e.to_string())
}

/// `qpdf::QPdfWriter::write_to_memory`, after `compress_streams`,
/// `object_stream_mode` and `stream_data_mode` have asked for compressed
/// streams and for object streams. The file reads back as `write_document` says.
/// Of a document that nothing was done with since it was read, it is a matter of
/// the bytes that were read and of what is drawn from the clock and from chance.
#[verifier::external_body]
pub(crate) fn write_compressed(doc: QPdf) -> (r: Result<Vec<u8>, String>)
    requires
        intact(doc),
    ensures
        r matches Ok(out) ==> sound(files(doc)) ==> !irregular(out@) && written(doc, out@),
        source(doc) matches Some(bytes) ==> match r {
            Ok(out) => compress_error(bytes) is None && exists|drawn: Seq<u8>|
                out@ == #[trigger] compressed_file(bytes, drawn),
            Err(e) => compress_error(bytes) == Some(e@),
        },
{
    let mut writer = doc.writer();
    writer
        .compress_streams(true)
        .object_stream_mode(qpdf::ObjectStreamMode::Generate)
        .stream_data_mode(qpdf::StreamDataMode::Compress);
    writer.write_to_memory().map_err(|e| e.to_string())
}

} // verus!
