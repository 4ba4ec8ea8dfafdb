use papers::pdf_mutation::{
    compress, delete_pages, extract_pages, merge_pages, out_of_range_text, page_position,
    parse_page_ranges, plan_deletion, reorder_pages,
};

/// The bytes of a PDF file with one page.
fn one_page() -> Vec<u8> {
    let pdf = qpdf::QPdf::empty();
    let page = pdf
        .parse_object("<< /Type /Page /MediaBox [0 0 612 792] >>")
        .unwrap();
    pdf.add_page(&page, false).unwrap();
    pdf.writer().write_to_memory().unwrap()
}

/// The bytes of a PDF file that holds the one page of `source` `n` times.
fn make_multi_page_pdf(source: &[u8], n: usize) -> Vec<u8> {
    let src = qpdf::QPdf::read_from_memory(source).unwrap();
    let page = src.get_page(0).unwrap();
    let dest = qpdf::QPdf::empty();
    for _ in 0..n {
        dest.add_page(&page, false).unwrap();
    }
    dest.writer().write_to_memory().unwrap()
}

/// The same pages, each with a number of its own from `start` on.
fn tag_pages(bytes: &[u8], start: i64) -> Vec<u8> {
    let pdf = qpdf::QPdf::read_from_memory(bytes).unwrap();
    let pages = pdf.get_pages().unwrap();
    for (i, page) in pages.iter().enumerate() {
        page.set("/PapersTestMarker", pdf.new_integer(start + i as i64));
    }
    pdf.writer().write_to_memory().unwrap()
}

/// The numbers of the pages, in order.
fn read_markers(bytes: &[u8]) -> Vec<i64> {
    let pdf = qpdf::QPdf::read_from_memory(bytes).unwrap();
    pdf.get_pages()
        .unwrap()
        .iter()
        .map(|p| {
            let obj: qpdf::QPdfScalar = p.get("/PapersTestMarker").unwrap().into();
            obj.as_i64()
        })
        .collect()
}

fn count_pages(bytes: &[u8]) -> u32 {
    qpdf::QPdf::read_from_memory(bytes)
        .expect("file must be valid PDF")
        .get_num_pages()
        .unwrap()
}

#[test]
fn compress_real_pdf_stays_valid() {
    let source = one_page();
    let original_pages = count_pages(&source);

    let compressed = compress(&source).expect("compress should succeed on a valid PDF");

    assert!(source.len() > 0);
    assert!(compressed.len() > 0);
    assert_eq!(count_pages(&compressed), original_pages);
}

#[test]
fn compress_keeps_the_pages_in_order() {
    let source = tag_pages(&make_multi_page_pdf(&one_page(), 3), 7);
    let compressed = compress(&source).unwrap();
    assert_eq!(read_markers(&compressed), vec![7, 8, 9]);
    assert_ne!(compressed, source);
}

#[test]
fn compress_shrinks_a_plain_stream() {
    let pdf = qpdf::QPdf::empty();
    let page: qpdf::QPdfDictionary = pdf
        .parse_object("<< /Type /Page /MediaBox [0 0 612 792] >>")
        .unwrap()
        .into();
    let content = "0 0 m 10 10 l S\n".repeat(500);
    page.set("/Contents", pdf.new_stream(content.as_bytes()));
    pdf.add_page(&page, false).unwrap();
    let mut writer = pdf.writer();
    writer.compress_streams(false);
    let source = writer.write_to_memory().unwrap();
    let compressed = compress(&source).unwrap();
    assert!(compressed.len() < source.len());
}

#[test]
fn operations_reject_what_is_no_pdf() {
    let junk = b"this is no document".to_vec();
    let good = one_page();
    let error = compress(&junk).unwrap_err();
    assert_eq!(delete_pages(&junk, &[0]).unwrap_err(), error);
    assert_eq!(reorder_pages(&junk, &[0]).unwrap_err(), error);
    assert_eq!(extract_pages(&junk, &[0]).unwrap_err(), error);
    assert_eq!(merge_pages(&junk, &good, 0).unwrap_err(), error);
    assert_eq!(merge_pages(&good, &junk, 0).unwrap_err(), error);
}

/// A PDF file whose page tree has no pages array.
fn without_page_tree() -> Vec<u8> {
    b"%PDF-1.4\n1 0 obj\n<< /Type /Catalog /Pages 2 0 R >>\nendobj\n2 0 obj\n<< /Type /Pages >>\nendobj\ntrailer\n<< /Root 1 0 R /Size 3 >>\nstartxref\n0\n%%EOF\n"
        .to_vec()
}

#[test]
fn operations_reject_a_broken_page_tree() {
    let broken = without_page_tree();
    let good = one_page();
    let error = delete_pages(&broken, &[0]).unwrap_err();
    assert_eq!(error, "PagesError: root of pages tree has no /Kids array");
    assert_eq!(reorder_pages(&broken, &[0]).unwrap_err(), error);
    assert_eq!(extract_pages(&broken, &[0]).unwrap_err(), error);
    assert_eq!(merge_pages(&broken, &good, 0).unwrap_err(), error);
    assert_eq!(merge_pages(&good, &broken, 0).unwrap_err(), error);
    assert_eq!(extract_pages(&broken, &[]).unwrap_err(), "no pages selected");
}

#[test]
fn operations_name_a_first_page_that_is_not_there() {
    let three = make_multi_page_pdf(&one_page(), 3);
    assert_eq!(
        delete_pages(&three, &[9, 5]).unwrap_err(),
        "page 5 out of range"
    );
    assert_eq!(
        extract_pages(&three, &[9, 5]).unwrap_err(),
        "page 9 out of range"
    );
}

#[test]
fn parse_page_ranges_simple_list() {
    assert_eq!(parse_page_ranges("1,3,5", 10).unwrap(), vec![0, 2, 4]);
}

#[test]
fn parse_page_ranges_with_ranges_and_dedup() {
    assert_eq!(
        parse_page_ranges("1-3,2,5-6", 10).unwrap(),
        vec![0, 1, 2, 4, 5]
    );
}

#[test]
fn parse_page_ranges_rejects_out_of_range() {
    assert!(parse_page_ranges("1,11", 10).is_err());
}

#[test]
fn parse_page_ranges_rejects_zero_and_malformed() {
    assert!(parse_page_ranges("0", 10).is_err());
    assert!(parse_page_ranges("abc", 10).is_err());
    assert!(parse_page_ranges("3-1", 10).is_err());
}

#[test]
fn parse_page_ranges_rejects_empty() {
    assert!(parse_page_ranges("", 10).is_err());
    assert!(parse_page_ranges("  ", 10).is_err());
}

#[test]
fn parse_page_ranges_says_what_is_wrong() {
    assert_eq!(
        parse_page_ranges("1,11", 10).unwrap_err(),
        "page 11 is beyond the document's 10 pages"
    );
    assert_eq!(
        parse_page_ranges("0", 10).unwrap_err(),
        "invalid page range: 0"
    );
    assert_eq!(
        parse_page_ranges(" abc ", 10).unwrap_err(),
        "invalid page number: abc"
    );
    assert_eq!(
        parse_page_ranges("2 - x", 10).unwrap_err(),
        "invalid page number:  x"
    );
    assert_eq!(
        parse_page_ranges("y -2", 10).unwrap_err(),
        "invalid page number: y "
    );
    assert_eq!(
        parse_page_ranges("3-1", 10).unwrap_err(),
        "invalid page range: 3-1"
    );
    assert_eq!(
        parse_page_ranges(" , ,", 10).unwrap_err(),
        "no pages specified"
    );
    assert_eq!(
        parse_page_ranges("4294967296", 10).unwrap_err(),
        "invalid page number: 4294967296"
    );
}

#[test]
fn parse_page_ranges_reports_the_first_mistake() {
    assert_eq!(
        parse_page_ranges("1,x,99", 10).unwrap_err(),
        "invalid page number: x"
    );
    assert_eq!(
        parse_page_ranges("1,99,x", 10).unwrap_err(),
        "page 99 is beyond the document's 10 pages"
    );
}

#[test]
fn parse_page_ranges_allows_white_space_and_signs() {
    assert_eq!(
        parse_page_ranges(" 2 - 3 ,\t5,, ", 10).unwrap(),
        vec![1, 2, 4]
    );
    assert_eq!(parse_page_ranges("+4", 10).unwrap(), vec![3]);
    assert!(parse_page_ranges("1-2-3", 10).is_err());
    assert_eq!(
        parse_page_ranges("4294967295", u32::MAX).unwrap(),
        vec![4294967294]
    );
}

#[test]
fn delete_pages_removes_selected_pages() {
    let target = make_multi_page_pdf(&one_page(), 3);
    let original_pages = count_pages(&target);
    assert!(original_pages >= 2, "test PDF needs at least 2 pages");

    let out = delete_pages(&target, &[0]).expect("delete_pages should succeed");

    assert_eq!(count_pages(&out), original_pages - 1);
}

#[test]
fn delete_pages_leaves_the_other_pages_in_order() {
    let target = tag_pages(&make_multi_page_pdf(&one_page(), 5), 10);
    let out = delete_pages(&target, &[3, 1, 3]).unwrap();
    assert_eq!(read_markers(&out), vec![10, 12, 14]);
}

#[test]
fn delete_pages_refuses_to_remove_every_page() {
    let target = one_page();
    let n = count_pages(&target);
    let all_indices: Vec<u32> = (0..n).collect();

    assert!(delete_pages(&target, &all_indices).is_err());
}

#[test]
fn delete_pages_says_what_is_wrong() {
    let target = make_multi_page_pdf(&one_page(), 3);
    assert_eq!(
        delete_pages(&target, &[0, 1, 2]).unwrap_err(),
        "cannot delete every page of the document"
    );
    assert_eq!(
        delete_pages(&target, &[7, 5]).unwrap_err(),
        "page 5 out of range"
    );
}

#[test]
fn plan_deletion_sorts_and_refuses() {
    assert_eq!(plan_deletion(&[4, 1, 4], 6).unwrap(), vec![1, 4]);
    assert_eq!(plan_deletion(&[9], 6).unwrap(), vec![9]);
    assert_eq!(
        plan_deletion(&[1, 0], 2).unwrap_err(),
        "cannot delete every page of the document"
    );
    assert_eq!(plan_deletion(&[], 1).unwrap(), Vec::<u32>::new());
    assert!(plan_deletion(&[], 0).is_err());
}

#[test]
fn page_position_checks_the_page() {
    assert_eq!(page_position(2, 3).unwrap(), 2);
    assert_eq!(page_position(3, 3).unwrap_err(), "page 3 out of range");
    assert_eq!(out_of_range_text(12), "page 12 out of range");
}

#[test]
fn reorder_pages_applies_permutation() {
    let target = tag_pages(&make_multi_page_pdf(&one_page(), 4), 0);

    let mut reversed: Vec<u32> = (0..4).collect();
    reversed.reverse();

    let out = reorder_pages(&target, &reversed).expect("reorder_pages should succeed");

    assert_eq!(count_pages(&out), 4);

    let markers = read_markers(&out);
    let expected: Vec<i64> = reversed.iter().map(|&i| i as i64).collect();
    assert_eq!(markers, expected, "page order was not actually applied");
}

#[test]
fn reorder_pages_is_undone_by_the_inverse() {
    let target = tag_pages(&make_multi_page_pdf(&one_page(), 3), 30);
    let out = reorder_pages(&target, &[2, 0, 1]).unwrap();
    assert_eq!(read_markers(&out), vec![32, 30, 31]);
    let back = reorder_pages(&out, &[1, 2, 0]).unwrap();
    assert_eq!(read_markers(&back), vec![30, 31, 32]);
}

#[test]
fn reorder_pages_rejects_wrong_length() {
    let target = make_multi_page_pdf(&one_page(), 3);

    assert!(reorder_pages(&target, &[0]).is_err());
    assert_eq!(
        reorder_pages(&target, &[0]).unwrap_err(),
        "page order does not match the document's page count"
    );
    assert_eq!(
        reorder_pages(&target, &[0, 1, 8]).unwrap_err(),
        "page 8 out of range"
    );
}

#[test]
fn extract_pages_writes_subset_leaves_source_untouched() {
    let src = make_multi_page_pdf(&one_page(), 3);
    let original_pages = count_pages(&src);

    let extracted = extract_pages(&src, &[0]).expect("extract_pages should succeed");

    assert_eq!(count_pages(&extracted), 1);
    assert_eq!(count_pages(&src), original_pages);
}

#[test]
fn extract_pages_keeps_the_order_asked_for() {
    let src = tag_pages(&make_multi_page_pdf(&one_page(), 3), 50);
    let extracted = extract_pages(&src, &[2, 0, 2]).unwrap();
    assert_eq!(read_markers(&extracted), vec![52, 50, 52]);
    assert_eq!(
        extract_pages(&src, &[1, 3]).unwrap_err(),
        "page 3 out of range"
    );
}

#[test]
fn extract_pages_rejects_empty_selection() {
    let src = one_page();

    assert!(extract_pages(&src, &[]).is_err());
    assert_eq!(extract_pages(&src, &[]).unwrap_err(), "no pages selected");
}

#[test]
fn merge_pages_inserts_foreign_pages_at_position() {
    let target = tag_pages(&make_multi_page_pdf(&one_page(), 2), 100);
    let insert = tag_pages(&make_multi_page_pdf(&one_page(), 2), 200);

    let out = merge_pages(&target, &insert, 1).expect("merge_pages should succeed");

    let markers = read_markers(&out);
    assert_eq!(
        markers,
        vec![100, 200, 201, 101],
        "foreign pages not inserted at the right position/order"
    );
}

#[test]
fn merge_pages_appends_when_index_beyond_end() {
    let target = tag_pages(&make_multi_page_pdf(&one_page(), 2), 100);
    let insert = tag_pages(&make_multi_page_pdf(&one_page(), 2), 200);

    let out = merge_pages(&target, &insert, 9999).expect("merge_pages should succeed");

    let markers = read_markers(&out);
    assert_eq!(
        markers,
        vec![100, 101, 200, 201],
        "foreign pages not appended in order at the end"
    );
}

#[test]
fn merge_pages_rejects_a_document_without_pages() {
    let target = one_page();
    let empty = qpdf::QPdf::empty().writer().write_to_memory().unwrap();
    assert_eq!(
        merge_pages(&target, &empty, 0).unwrap_err(),
        "the selected PDF has no pages"
    );
}

#[test]
fn merged_pages_can_be_deleted_again() {
    let target = tag_pages(&make_multi_page_pdf(&one_page(), 3), 1);
    let insert = tag_pages(&make_multi_page_pdf(&one_page(), 2), 9);
    let merged = merge_pages(&target, &insert, 2).unwrap();
    assert_eq!(read_markers(&merged), vec![1, 2, 9, 10, 3]);
    let back = delete_pages(&merged, &[2, 3]).unwrap();
    assert_eq!(read_markers(&back), vec![1, 2, 3]);
}

#[test]
fn extracted_and_left_pages_share_the_document() {
    let target = tag_pages(&make_multi_page_pdf(&one_page(), 4), 0);
    let taken = read_markers(&extract_pages(&target, &[1, 3]).unwrap());
    let left = read_markers(&delete_pages(&target, &[1, 3]).unwrap());
    assert_eq!(taken, vec![1, 3]);
    assert_eq!(left, vec![0, 2]);
}

fn holds(bytes: &[u8], part: &[u8]) -> bool {
    bytes.windows(part.len()).any(|w| w == part)
}

/// The same document with a mark in its catalog.
fn mark_catalog(bytes: &[u8], mark: i64) -> Vec<u8> {
    let pdf = qpdf::QPdf::read_from_memory(bytes).unwrap();
    pdf.get_root()
        .unwrap()
        .set("/PapersTestMark", pdf.new_integer(mark));
    pdf.writer().write_to_memory().unwrap()
}

fn read_mark(bytes: &[u8]) -> Option<i64> {
    let pdf = qpdf::QPdf::read_from_memory(bytes).unwrap();
    let mark: qpdf::QPdfScalar = pdf.get_root().unwrap().get("/PapersTestMark")?.into();
    Some(mark.as_i64())
}

/// The same document, which counts its pages wrongly.
fn miscount(bytes: &[u8]) -> Vec<u8> {
    let pdf = qpdf::QPdf::read_from_memory(bytes).unwrap();
    let tree: qpdf::QPdfDictionary = pdf.get_root().unwrap().get("/Pages").unwrap().into();
    tree.set("/Count", pdf.new_integer(9));
    pdf.writer().write_to_memory().unwrap()
}

#[test]
fn compress_puts_objects_into_streams() {
    let source = make_multi_page_pdf(&one_page(), 3);
    assert!(!holds(&source, b"/ObjStm"));
    assert!(holds(&compress(&source).unwrap(), b"/ObjStm"));
    assert!(!holds(&reorder_pages(&source, &[2, 1, 0]).unwrap(), b"/ObjStm"));
}

#[test]
fn operations_keep_what_stands_beside_the_pages() {
    let marked = mark_catalog(&make_multi_page_pdf(&one_page(), 3), 42);
    let other = mark_catalog(&one_page(), 7);
    assert_eq!(read_mark(&compress(&marked).unwrap()), Some(42));
    assert_eq!(read_mark(&delete_pages(&marked, &[1]).unwrap()), Some(42));
    assert_eq!(read_mark(&reorder_pages(&marked, &[2, 0, 1]).unwrap()), Some(42));
    assert_eq!(read_mark(&merge_pages(&marked, &other, 1).unwrap()), Some(42));
    assert_eq!(read_mark(&extract_pages(&marked, &[0]).unwrap()), None);
}

#[test]
fn a_miscounted_document_can_be_read_but_not_changed() {
    let bad = miscount(&tag_pages(&make_multi_page_pdf(&one_page(), 3), 5));
    let good = tag_pages(&one_page(), 8);
    let error = reorder_pages(&bad, &[2, 1, 0]).unwrap_err();
    assert!(error.contains("/Count is wrong"));
    assert_eq!(delete_pages(&bad, &[0]).unwrap_err(), error);
    assert_eq!(merge_pages(&bad, &good, 1).unwrap_err(), error);
    assert_eq!(merge_pages(&bad, &good, 7).unwrap_err(), error);
    assert_eq!(read_markers(&compress(&bad).unwrap()), vec![5, 6, 7]);
    assert_eq!(read_markers(&delete_pages(&bad, &[]).unwrap()), vec![5, 6, 7]);
    assert_eq!(read_markers(&extract_pages(&bad, &[2, 0]).unwrap()), vec![7, 5]);
    assert_eq!(read_markers(&merge_pages(&good, &bad, 0).unwrap()), vec![5, 6, 7, 8]);
}

#[test]
fn operations_name_a_later_page_that_is_not_there() {
    let three = make_multi_page_pdf(&one_page(), 3);
    assert_eq!(delete_pages(&three, &[0, 9]).unwrap_err(), "page 9 out of range");
    assert_eq!(reorder_pages(&three, &[0, 7, 9]).unwrap_err(), "page 7 out of range");
    assert_eq!(extract_pages(&three, &[0, 9, 7]).unwrap_err(), "page 9 out of range");
}

#[test]
fn a_document_is_merged_with_itself() {
    let two = tag_pages(&make_multi_page_pdf(&one_page(), 2), 1);
    assert_eq!(read_markers(&merge_pages(&two, &two, 1).unwrap()), vec![1, 1, 2, 2]);
}

#[test]
fn joined_selections_select_the_pages_of_both() {
    let mut both = parse_page_ranges("2-3,7", 10).unwrap();
    both.extend(parse_page_ranges("1,3-4", 10).unwrap());
    both.sort();
    both.dedup();
    assert_eq!(parse_page_ranges("2-3,7,1,3-4", 10).unwrap(), both);
    assert_eq!(
        parse_page_ranges("2-3,x,11", 10).unwrap_err(),
        parse_page_ranges("x", 10).unwrap_err()
    );
    assert_eq!(
        parse_page_ranges("2-3,11", 10).unwrap_err(),
        parse_page_ranges("11", 10).unwrap_err()
    );
}
